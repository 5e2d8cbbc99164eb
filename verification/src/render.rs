//! Rendering integers as text: decimal numbers, fixed-width lowercase
//! hexadecimal, and the grouped hexadecimal identifier format.

use vstd::prelude::*;
use vstd::string::StringExecFns;

verus! {

/// Relies on `String::push`: appends exactly the one given character.
#[verifier::external_body]
fn push_char(s: &mut String, c: char)
    ensures
        final(s)@ == old(s)@.push(c),
{
    s.push(c);
}

/// The decimal digit character of a value below ten.
pub open spec fn dec_digit(v: int) -> char {
    if v == 0 { '0' } else if v == 1 { '1' } else if v == 2 { '2' } else if v == 3 { '3' }
    else if v == 4 { '4' } else if v == 5 { '5' } else if v == 6 { '6' } else if v == 7 { '7' }
    else if v == 8 { '8' } else { '9' }
}

/// The lowercase hexadecimal digit character of a value below sixteen.
pub open spec fn hex_digit(v: int) -> char {
    if v < 10 { dec_digit(v) } else if v == 10 { 'a' } else if v == 11 { 'b' }
    else if v == 12 { 'c' } else if v == 13 { 'd' } else if v == 14 { 'e' } else { 'f' }
}

/// The decimal rendering of a non-negative value, most significant digit
/// first, without leading zeros (a lone zero for zero).
pub open spec fn dec_digits(v: int) -> Seq<char>
    decreases v,
{
    if v < 10 {
        seq![dec_digit(v)]
    } else {
        dec_digits(v / 10).push(dec_digit(v % 10))
    }
}

/// The low `n` hexadecimal digits of a value, most significant first, in
/// exactly `n` characters.
pub open spec fn hex_digits(v: int, n: nat) -> Seq<char>
    decreases n,
{
    if n == 0 {
        Seq::empty()
    } else {
        hex_digits(v / 16, (n - 1) as nat).push(hex_digit(v % 16))
    }
}

fn hex_char(d: u64) -> (c: char)
    requires
        d < 16,
    ensures
        c == hex_digit(d as int),
{
    if d == 0 { '0' } else if d == 1 { '1' } else if d == 2 { '2' } else if d == 3 { '3' }
    else if d == 4 { '4' } else if d == 5 { '5' } else if d == 6 { '6' } else if d == 7 { '7' }
    else if d == 8 { '8' } else if d == 9 { '9' } else if d == 10 { 'a' } else if d == 11 { 'b' }
    else if d == 12 { 'c' } else if d == 13 { 'd' } else if d == 14 { 'e' } else { 'f' }
}

fn push_decimal(s: &mut String, v: u64)
    ensures
        final(s)@ == old(s)@ + dec_digits(v as int),
    decreases v,
{
    if v < 10 {
        push_char(s, hex_char(v));
        proof {
            assert(old(s)@.push(dec_digit(v as int)) =~= old(s)@ + dec_digits(v as int));
        }
    } else {
        push_decimal(s, v / 10);
        push_char(s, hex_char(v % 10));
        proof {
            assert((old(s)@ + dec_digits(v as int / 10)).push(dec_digit(v as int % 10)) =~= old(
                s,
            )@ + dec_digits(v as int));
        }
    }
}

/// Render a value in decimal.
pub fn u64_to_string(v: u64) -> (r: String)
    ensures
        r@ == dec_digits(v as int),
{
    let mut s = String::new();
    push_decimal(&mut s, v);
    proof {
        assert(Seq::<char>::empty() + dec_digits(v as int) =~= dec_digits(v as int));
    }
    s
}

fn push_hex(s: &mut String, v: u64, n: usize)
    ensures
        final(s)@ == old(s)@ + hex_digits(v as int, n as nat),
    decreases n,
{
    if n > 0 {
        push_hex(s, v / 16, n - 1);
        push_char(s, hex_char(v % 16));
        proof {
            assert((old(s)@ + hex_digits(v as int / 16, (n - 1) as nat)).push(
                hex_digit(v as int % 16),
            ) =~= old(s)@ + hex_digits(v as int, n as nat));
        }
    } else {
        proof {
            assert(s@ + hex_digits(v as int, 0) =~= s@);
        }
    }
}

/// The 32-character hexadecimal rendering of a machine word: sixteen leading
/// zeros, then its sixteen hexadecimal digits.
pub open spec fn hex32(v: u64) -> Seq<char> {
    hex_digits(0, 16) + hex_digits(v as int, 16)
}

/// The grouped identifier format over `hex32`: groups of 8, 4, 4, 4 and 12
/// characters, joined by dashes.
pub open spec fn spec_uuid(v: u64) -> Seq<char> {
    let h = hex32(v);
    h.subrange(0, 8) + seq!['-'] + h.subrange(8, 12) + seq!['-'] + h.subrange(12, 16) + seq!['-']
        + h.subrange(16, 20) + seq!['-'] + h.subrange(20, 32)
}

/// Render the identifier drawn from a timestamp and a counter: their
/// exclusive-or, 32 hexadecimal characters grouped 8-4-4-4-12.
pub fn generate_uuid(now_nanos: u64, counter_value: u64) -> (r: String)
    ensures
        r@ == spec_uuid(now_nanos ^ counter_value),
{
    let combined: u64 = now_nanos ^ counter_value;
    let mut hex = String::new();
    push_hex(&mut hex, 0, 16);
    push_hex(&mut hex, combined, 16);
    proof {
        lemma_hex_digits_len(0, 16);
        lemma_hex_digits_len(combined as int, 16);
        assert(Seq::<char>::empty() + hex_digits(0, 16) =~= hex_digits(0, 16));
        assert(hex@ == hex32(combined));
    }
    let mut out = String::new();
    push_group(&mut out, &hex, 0, 8);
    push_char(&mut out, '-');
    push_group(&mut out, &hex, 8, 12);
    push_char(&mut out, '-');
    push_group(&mut out, &hex, 12, 16);
    push_char(&mut out, '-');
    push_group(&mut out, &hex, 16, 20);
    push_char(&mut out, '-');
    push_group(&mut out, &hex, 20, 32);
    proof {
        assert(out@ =~= spec_uuid(combined));
    }
    out
}

pub proof fn lemma_hex_digits_len(v: int, n: nat)
    ensures
        hex_digits(v, n).len() == n,
    decreases n,
{
    if n > 0 {
        lemma_hex_digits_len(v / 16, (n - 1) as nat);
    }
}

fn push_group(out: &mut String, src: &String, from: usize, to: usize)
    requires
        from <= to <= src@.len(),
    ensures
        final(out)@ == old(out)@ + src@.subrange(from as int, to as int),
{
    let mut i = from;
    while i < to
        invariant
            from <= i <= to <= src@.len(),
            out@ == old(out)@ + src@.subrange(from as int, i as int),
        decreases to - i,
    {
        push_char(out, src.as_str().get_char(i));
        proof {
            assert((old(out)@ + src@.subrange(from as int, i as int)).push(src@[i as int]) =~= old(
                out,
            )@ + src@.subrange(from as int, i + 1));
        }
        i = i + 1;
    }
    proof {
        if from == to {
            assert(out@ =~= old(out)@ + src@.subrange(from as int, to as int));
        }
    }
}

} // verus!
