//! Reading a decimal figure, with an optional fraction, into the engine's
//! fixed-point emission units: one whole is a million units, and fraction
//! digits past the sixth are dropped.

use vstd::prelude::*;
use vstd::string::StrSliceExecFns;

verus! {

/// Emission units per whole: six decimal places.
pub const UNITS_PER_WHOLE: u64 = 1_000_000;

/// How many fraction digits one unit resolves.
pub const FRACTION_DIGITS: usize = 6;

pub open spec fn is_dec_digit(c: char) -> bool {
    48 <= c as u32 <= 57
}

pub open spec fn digit_val(c: char) -> int {
    c as u32 - 48
}

pub open spec fn all_dec_digits(s: Seq<char>) -> bool {
    forall|i: int| 0 <= i < s.len() ==> is_dec_digit(#[trigger] s[i])
}

/// The value of a run of decimal digits, most significant first.
pub open spec fn dec_value(s: Seq<char>) -> int
    decreases s.len(),
{
    if s.len() == 0 {
        0
    } else {
        dec_value(s.drop_last()) * 10 + digit_val(s.last())
    }
}

pub open spec fn pow10(n: nat) -> int
    decreases n,
{
    if n == 0 {
        1
    } else {
        10 * pow10((n - 1) as nat)
    }
}

/// The text has the shape `digits '.' digits`: one dot, not first, not last,
/// every other character a digit.
pub open spec fn is_fractional(s: Seq<char>) -> bool {
    exists|i: int| #[trigger] fraction_point(s, i)
}

/// `i` is the position of the dot of a `digits '.' digits` text.
pub open spec fn fraction_point(s: Seq<char>, i: int) -> bool {
    0 < i < s.len() - 1 && s[i] == '.' && (forall|j: int|
        0 <= j < s.len() && j != i ==> is_dec_digit(#[trigger] s[j]))
}

/// The dot position of a fractional text (unique: every other character is a
/// digit, and a dot is no digit).
pub open spec fn the_fraction_point(s: Seq<char>) -> int {
    choose|i: int| fraction_point(s, i)
}

/// A fraction's worth in units: its first six digits, scaled up when it is
/// shorter; later digits are dropped.
pub open spec fn frac_units(fr: Seq<char>) -> int {
    if fr.len() >= 6 {
        dec_value(fr.subrange(0, 6))
    } else {
        dec_value(fr) * pow10((6 - fr.len()) as nat)
    }
}

/// The units a decimal text stands for: a whole number of a run of digits,
/// or a `digits '.' digits` fraction; anything else (an empty text, a sign,
/// an exponent) has no value here.
pub open spec fn decimal_units(s: Seq<char>) -> Option<int> {
    if s.len() > 0 && all_dec_digits(s) {
        Some(dec_value(s) * (UNITS_PER_WHOLE as int))
    } else if is_fractional(s) {
        let i = the_fraction_point(s);
        Some(
            dec_value(s.subrange(0, i)) * (UNITS_PER_WHOLE as int) + frac_units(
                s.subrange(i + 1, s.len() as int),
            ),
        )
    } else {
        None
    }
}

pub proof fn lemma_dec_value_nonneg(s: Seq<char>)
    requires
        all_dec_digits(s),
    ensures
        dec_value(s) >= 0,
    decreases s.len(),
{
    if s.len() > 0 {
        assert(forall|i: int| 0 <= i < s.len() - 1 ==> is_dec_digit(#[trigger] s.drop_last()[i]));
        lemma_dec_value_nonneg(s.drop_last());
    }
}

/// A run of `n` digits is worth less than `10^n`.
pub proof fn lemma_dec_value_bound(s: Seq<char>)
    requires
        all_dec_digits(s),
    ensures
        dec_value(s) < pow10(s.len()),
    decreases s.len(),
{
    if s.len() > 0 {
        assert(forall|i: int| 0 <= i < s.len() - 1 ==> is_dec_digit(#[trigger] s.drop_last()[i]));
        lemma_dec_value_bound(s.drop_last());
        lemma_dec_value_nonneg(s.drop_last());
        assert(dec_value(s.drop_last()) <= pow10(s.drop_last().len()) - 1);
        assert((pow10(s.drop_last().len()) - 1) * 10 + 9 < pow10(s.len())) by {
            assert(pow10(s.len()) == 10 * pow10(s.drop_last().len()));
        }
        assert(dec_value(s.drop_last()) * 10 <= (pow10(s.drop_last().len()) - 1) * 10)
            by (nonlinear_arith)
            requires dec_value(s.drop_last()) <= pow10(s.drop_last().len()) - 1;
    }
}

/// Extending a digit run cannot shrink its value.
proof fn lemma_dec_value_prefix_le(s: Seq<char>, a: int, b: int)
    requires
        all_dec_digits(s),
        0 <= a <= b <= s.len(),
    ensures
        dec_value(s.subrange(0, a)) <= dec_value(s.subrange(0, b)),
    decreases b - a,
{
    if a < b {
        lemma_dec_value_prefix_le(s, a + 1, b);
        let p = s.subrange(0, a);
        let q = s.subrange(0, a + 1);
        assert(q.drop_last() =~= p);
        assert(forall|i: int| 0 <= i < p.len() ==> is_dec_digit(#[trigger] p[i]));
        lemma_dec_value_nonneg(p);
        assert(dec_value(q) == dec_value(p) * 10 + digit_val(s[a]));
        assert(dec_value(p) * 10 >= dec_value(p)) by (nonlinear_arith)
            requires dec_value(p) >= 0;
    }
}

fn char_digit(c: char) -> (r: Option<u64>)
    ensures
        r is Some <==> is_dec_digit(c),
        r is Some ==> r->0 == digit_val(c) && r->0 <= 9,
{
    let v = c as u32;
    if 48 <= v && v <= 57 {
        Some((v - 48) as u64)
    } else {
        None
    }
}

/// The value of the digit run `s[from..to]`, or nothing if it overflows the
/// machine word.
fn dec_run_value(s: &String, from: usize, to: usize) -> (r: Option<u64>)
    requires
        from <= to <= s@.len(),
        all_dec_digits(s@.subrange(from as int, to as int)),
    ensures
        match r {
            Some(v) => v == dec_value(s@.subrange(from as int, to as int)),
            None => dec_value(s@.subrange(from as int, to as int)) > u64::MAX,
        },
{
    let ghost whole = s@.subrange(from as int, to as int);
    let mut value: u64 = 0;
    let mut i = from;
    while i < to
        invariant
            from <= i <= to <= s@.len(),
            all_dec_digits(whole),
            whole == s@.subrange(from as int, to as int),
            value == dec_value(s@.subrange(from as int, i as int)),
        decreases to - i,
    {
        let c = s.as_str().get_char(i);
        proof {
            assert(whole[i - from] == s@[i as int]);
        }
        let d = char_digit(c).unwrap();
        let ghost pre = s@.subrange(from as int, i as int);
        proof {
            assert(s@.subrange(from as int, i + 1).drop_last() =~= pre);
            assert(s@.subrange(from as int, i + 1).last() == s@[i as int]);
            assert(forall|k: int| 0 <= k < s@.subrange(from as int, i + 1).len()
                ==> is_dec_digit(#[trigger] s@.subrange(from as int, i + 1)[k]));
        }
        if value > (u64::MAX - d) / 10 {
            proof {
                assert(dec_value(s@.subrange(from as int, i + 1)) == value * 10 + d);
                assert(value * 10 + d > u64::MAX) by (nonlinear_arith)
                    requires value > (u64::MAX - d) / 10 && d <= 9;
                assert(forall|k: int| 0 <= k < whole.len() ==> is_dec_digit(#[trigger] whole[k]));
                lemma_dec_value_prefix_le(whole, i + 1 - from, whole.len() as int);
                assert(whole.subrange(0, i + 1 - from) =~= s@.subrange(from as int, i + 1));
                assert(whole.subrange(0, whole.len() as int) =~= whole);
            }
            return None;
        }
        proof {
            assert(value * 10 + d <= u64::MAX) by (nonlinear_arith)
                requires value <= (u64::MAX - d) / 10 && d <= 9;
        }
        value = value * 10 + d;
        i = i + 1;
    }
    proof {
        assert(s@.subrange(from as int, to as int) =~= whole);
    }
    Some(value)
}

/// Read a decimal text into emission units. Fails exactly on a text that is
/// not `digits` or `digits '.' digits`, or whose value does not fit the
/// machine word.
pub fn parse_decimal_units(s: &String) -> (r: Option<u64>)
    ensures
        match decimal_units(s@) {
            Some(v) => {
                if v <= u64::MAX {
                    r == Some(v as u64)
                } else {
                    r is None
                }
            },
            None => r is None,
        },
{
    let len = s.as_str().unicode_len();
    // one pass: every character a digit, save for at most one interior dot
    let mut dot: Option<usize> = None;
    let mut i: usize = 0;
    while i < len
        invariant
            i <= len,
            len == s@.len(),
            match dot {
                Some(d) => d < i && s@[d as int] == '.' && 0 < d && (forall|j: int|
                    0 <= j < i && j != d ==> is_dec_digit(#[trigger] s@[j])),
                None => forall|j: int| 0 <= j < i ==> is_dec_digit(#[trigger] s@[j]),
            },
        decreases len - i,
    {
        let c = s.as_str().get_char(i);
        if char_digit(c).is_some() {
        } else if c == '.' && dot.is_none() && i > 0 {
            dot = Some(i);
        } else {
            proof {
                lemma_shape_rejected(s@, i as int, dot);
            }
            return None;
        }
        i = i + 1;
    }
    match dot {
        None => {
            if len == 0 {
                proof {
                    assert(!is_fractional(s@)) by {
                        if is_fractional(s@) {
                            let d = choose|d: int| fraction_point(s@, d);
                            assert(0 < d < s@.len() - 1);
                        }
                    }
                }
                return None;
            }
            proof {
                assert(s@.subrange(0, len as int) =~= s@);
            }
            let whole = match dec_run_value(s, 0, len) {
                Some(w) => w,
                None => {
                    proof {
                        lemma_dec_value_nonneg(s@);
                        assert(dec_value(s@) * (UNITS_PER_WHOLE as int) >= dec_value(s@))
                            by (nonlinear_arith)
                            requires dec_value(s@) >= 0;
                    }
                    return None;
                }
            };
            proof {
                lemma_dec_value_nonneg(s@);
            }
            if whole > u64::MAX / UNITS_PER_WHOLE {
                proof {
                    assert(whole * (UNITS_PER_WHOLE as int) > u64::MAX) by (nonlinear_arith)
                        requires whole as int > (u64::MAX as int) / (UNITS_PER_WHOLE as int);
                }
                return None;
            }
            proof {
                assert(whole * (UNITS_PER_WHOLE as int) <= u64::MAX) by (nonlinear_arith)
                    requires whole as int <= (u64::MAX as int) / (UNITS_PER_WHOLE as int);
            }
            Some(whole * UNITS_PER_WHOLE)
        }
        Some(d) => {
            if d + 1 >= len {
                proof {
                    lemma_not_fractional_dot_last(s@, d as int);
                }
                return None;
            }
            proof {
                assert(fraction_point(s@, d as int));
                lemma_fraction_point_unique(s@, d as int);
                assert(all_dec_digits(s@.subrange(0, d as int)));
                assert(!(s@.len() > 0 && all_dec_digits(s@))) by {
                    assert(!is_dec_digit(s@[d as int]));
                }
            }
            let whole = match dec_run_value(s, 0, d) {
                Some(w) => w,
                None => {
                    proof {
                        let ip = s@.subrange(0, d as int);
                        let fr = s@.subrange(d + 1, len as int);
                        lemma_dec_value_nonneg(ip);
                        assert(all_dec_digits(fr));
                        lemma_frac_units_nonneg(fr);
                        assert(dec_value(ip) * (UNITS_PER_WHOLE as int) >= dec_value(ip))
                            by (nonlinear_arith)
                            requires dec_value(ip) >= 0;
                    }
                    return None;
                }
            };
            let frac_end = if len - (d + 1) >= FRACTION_DIGITS {
                d + 1 + FRACTION_DIGITS
            } else {
                len
            };
            proof {
                assert(all_dec_digits(s@.subrange(d + 1, frac_end as int)));
                lemma_dec_value_bound(s@.subrange(d + 1, frac_end as int));
                lemma_pow10_le((frac_end - (d + 1)) as nat, 6);
                lemma_pow10_6();
            }
            let frac_run = dec_run_value(s, d + 1, frac_end).unwrap();
            let fraction: u64 = if len - (d + 1) >= FRACTION_DIGITS {
                frac_run
            } else {
                let mut scaled = frac_run;
                let mut k = len - (d + 1);
                proof {
                    lemma_dec_value_bound(s@.subrange(d + 1, frac_end as int));
                    lemma_pow10_le(((frac_end - (d + 1))) as nat, 6);
                }
                while k < FRACTION_DIGITS
                    invariant
                        k <= FRACTION_DIGITS,
                        frac_end == len,
                        d + 1 <= frac_end <= s@.len(),
                        scaled == dec_value(s@.subrange(d + 1, frac_end as int)) * pow10(
                            (k - (len - (d + 1))) as nat,
                        ),
                        len - (d + 1) <= k,
                        scaled < pow10(k as nat),
                        pow10(k as nat) <= pow10(6),
                    decreases FRACTION_DIGITS - k,
                {
                    proof {
                        lemma_pow10_le((k + 1) as nat, 6);
                        assert(pow10((k + 1 - (len - (d + 1))) as nat) == 10 * pow10(
                            (k - (len - (d + 1))) as nat,
                        ));
                        lemma_pow10_6();
                        assert(scaled * 10 < pow10((k + 1) as nat)) by (nonlinear_arith)
                            requires scaled < pow10(k as nat)
                                && pow10((k + 1) as nat) == 10 * pow10(k as nat);
                        assert(dec_value(s@.subrange(d + 1, frac_end as int)) * pow10(
                            (k - (len - (d + 1))) as nat,
                        ) * 10 == dec_value(s@.subrange(d + 1, frac_end as int)) * pow10(
                            (k + 1 - (len - (d + 1))) as nat,
                        )) by (nonlinear_arith)
                            requires pow10((k + 1 - (len - (d + 1))) as nat) == 10 * pow10(
                                (k - (len - (d + 1))) as nat,
                            );
                    }
                    scaled = scaled * 10;
                    k = k + 1;
                }
                scaled
            };
            proof {
                lemma_pow10_6();
                if frac_end < len {
                } else {
                }
                assert(fraction == frac_units(s@.subrange(d + 1, len as int))) by {
                    if len - (d + 1) >= 6 {
                        assert(s@.subrange(d + 1, frac_end as int) =~= s@.subrange(
                            d + 1,
                            len as int,
                        ).subrange(0, 6));
                    } else {
                        assert(s@.subrange(d + 1, frac_end as int) =~= s@.subrange(
                            d + 1,
                            len as int,
                        ));
                    }
                }
                assert(fraction < 1_000_000) by {
                    if len - (d + 1) >= 6 {
                        lemma_dec_value_bound(s@.subrange(d + 1, frac_end as int));
                        lemma_pow10_6();
                    }
                }
                lemma_dec_value_nonneg(s@.subrange(0, d as int));
            }
            if whole > (u64::MAX - fraction) / UNITS_PER_WHOLE {
                proof {
                    assert(whole * (UNITS_PER_WHOLE as int) + fraction > u64::MAX)
                        by (nonlinear_arith)
                        requires whole > (u64::MAX - fraction) / (UNITS_PER_WHOLE as int)
                            && whole >= 0 && fraction < 1_000_000;
                }
                return None;
            }
            proof {
                assert(whole * (UNITS_PER_WHOLE as int) + fraction <= u64::MAX)
                    by (nonlinear_arith)
                    requires whole <= (u64::MAX - fraction) / (UNITS_PER_WHOLE as int)
                        && whole >= 0 && fraction < 1_000_000;
            }
            Some(whole * UNITS_PER_WHOLE + fraction)
        }
    }
}

/// A decimal text never stands for a negative number of units.
pub proof fn lemma_decimal_units_nonneg(s: Seq<char>)
    ensures
        decimal_units(s) is Some ==> decimal_units(s)->0 >= 0,
{
    if s.len() > 0 && all_dec_digits(s) {
        lemma_dec_value_nonneg(s);
        assert(dec_value(s) * (UNITS_PER_WHOLE as int) >= 0) by (nonlinear_arith)
            requires dec_value(s) >= 0;
    } else if is_fractional(s) {
        let i = the_fraction_point(s);
        assert(fraction_point(s, i));
        let ip = s.subrange(0, i);
        let fr = s.subrange(i + 1, s.len() as int);
        assert(forall|j: int| 0 <= j < ip.len() ==> is_dec_digit(#[trigger] ip[j]));
        assert(forall|j: int| 0 <= j < fr.len() ==> is_dec_digit(#[trigger] fr[j]));
        lemma_dec_value_nonneg(ip);
        lemma_frac_units_nonneg(fr);
        assert(dec_value(ip) * (UNITS_PER_WHOLE as int) >= 0) by (nonlinear_arith)
            requires dec_value(ip) >= 0;
    }
}

/// A fraction is worth a non-negative number of units.
proof fn lemma_frac_units_nonneg(fr: Seq<char>)
    requires
        all_dec_digits(fr),
    ensures
        frac_units(fr) >= 0,
{
    if fr.len() >= 6 {
        let head = fr.subrange(0, 6);
        assert(forall|i: int| 0 <= i < head.len() ==> is_dec_digit(#[trigger] head[i]));
        lemma_dec_value_nonneg(head);
    } else {
        lemma_dec_value_nonneg(fr);
        lemma_pow10_le(0, (6 - fr.len()) as nat);
        assert(dec_value(fr) * pow10((6 - fr.len()) as nat) >= 0) by (nonlinear_arith)
            requires dec_value(fr) >= 0 && pow10((6 - fr.len()) as nat) >= 1;
    }
}

proof fn lemma_pow10_6()
    ensures
        pow10(6) == 1_000_000,
{
    reveal_with_fuel(pow10, 7);
}

proof fn lemma_pow10_le(a: nat, b: nat)
    requires
        a <= b,
    ensures
        pow10(a) <= pow10(b),
        pow10(a) >= 1,
    decreases b,
{
    if b > 0 {
        if a == b {
            lemma_pow10_le((b - 1) as nat, (b - 1) as nat);
        } else {
            lemma_pow10_le(a, (b - 1) as nat);
        }
    }
}

/// A text rejected by the scan — a character that is neither a digit nor the
/// first interior dot — has the shape of no decimal.
proof fn lemma_shape_rejected(s: Seq<char>, i: int, dot: Option<usize>)
    requires
        0 <= i < s.len(),
        !is_dec_digit(s[i]),
        match dot {
            Some(d) => 0 < d < i && s[d as int] == '.' && (forall|j: int|
                0 <= j < i && j != d ==> is_dec_digit(#[trigger] s[j])),
            None => forall|j: int| 0 <= j < i ==> is_dec_digit(#[trigger] s[j]),
        },
        !(s[i] == '.' && dot is None && i > 0),
    ensures
        !(s.len() > 0 && all_dec_digits(s)),
        !is_fractional(s),
{
    assert(!all_dec_digits(s));
    if is_fractional(s) {
        let f = the_fraction_point(s);
        assert(fraction_point(s, f));
        match dot {
            Some(d) => {
                // two non-digits at `d` and `i`, but a fractional text has one
                if f != d as int {
                    assert(is_dec_digit(s[d as int]));
                }
                if f != i {
                    assert(is_dec_digit(s[i]));
                }
                assert(d < i);
            }
            None => {
                // the one non-digit would be the dot at `i`, but `i` cannot
                // carry a fresh dot here: it is no dot, or it stands first
                if f != i {
                    assert(is_dec_digit(s[i]));
                }
                assert(s[i] == '.');
                assert(i == 0);
                assert(0 < f);
            }
        }
    }
}

/// A dot in the last position (or later) fits no fractional shape.
proof fn lemma_not_fractional_dot_last(s: Seq<char>, d: int)
    requires
        0 < d < s.len(),
        s[d] == '.',
        d + 1 >= s.len(),
        forall|j: int| 0 <= j < s.len() && j != d ==> is_dec_digit(#[trigger] s[j]),
    ensures
        !(s.len() > 0 && all_dec_digits(s)),
        !is_fractional(s),
{
    assert(!is_dec_digit(s[d]));
    if is_fractional(s) {
        let f = the_fraction_point(s);
        assert(fraction_point(s, f));
        if f != d {
            assert(is_dec_digit(s[d]));
        }
        assert(f < s.len() - 1);
    }
}

/// A fractional text has exactly one dot position.
proof fn lemma_fraction_point_unique(s: Seq<char>, d: int)
    requires
        fraction_point(s, d),
    ensures
        is_fractional(s),
        the_fraction_point(s) == d,
{
    let f = the_fraction_point(s);
    assert(fraction_point(s, f));
    if f != d {
        assert(is_dec_digit(s[d]));
        assert(s[d] == '.');
        assert(48 <= '.' as u32 <= 57);
    }
}

} // verus!
