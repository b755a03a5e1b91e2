//! The byte format of numbers: their bytes, most significant first.

use crate::wire::Wire;
use vstd::prelude::*;

verus! {

impl Wire for u8 {
    type Model = u8;

    open spec fn model(&self) -> u8 {
        *self
    }

    open spec fn fits(m: u8) -> bool {
        true
    }

    open spec fn wire(m: u8) -> Seq<u8> {
        seq![m]
    }

    open spec fn parse(s: Seq<u8>) -> Option<(u8, int)> {
        if s.len() >= 1 {
            Some((s[0], 1))
        } else {
            None
        }
    }

    proof fn lemma_parse_bounds(s: Seq<u8>) {
    }

    proof fn lemma_round_trip(m: u8, rest: Seq<u8>) {
    }

    proof fn lemma_parse_is_wire(s: Seq<u8>) {
        if s.len() >= 1 {
            assert(seq![s[0]] =~= s.take(1));
        }
    }

    fn write(&self, out: &mut Vec<u8>) {
        out.push(*self);
    }

    fn read(input: &[u8], pos: usize) -> (r: Option<(u8, usize)>) {
        if pos < input.len() {
            Some((input[pos], pos + 1))
        } else {
            None
        }
    }
}

/// The two bytes of `x`, most significant first.
pub open spec fn be_u16(x: u16) -> Seq<u8> {
    seq![(x / 256) as u8, (x % 256) as u8]
}

impl Wire for u16 {
    type Model = u16;

    open spec fn model(&self) -> u16 {
        *self
    }

    open spec fn fits(m: u16) -> bool {
        true
    }

    open spec fn wire(m: u16) -> Seq<u8> {
        be_u16(m)
    }

    open spec fn parse(s: Seq<u8>) -> Option<(u16, int)> {
        if s.len() >= 2 {
            Some(((s[0] * 256 + s[1]) as u16, 2))
        } else {
            None
        }
    }

    proof fn lemma_parse_bounds(s: Seq<u8>) {
    }

    proof fn lemma_round_trip(m: u16, rest: Seq<u8>) {
    }

    proof fn lemma_parse_is_wire(s: Seq<u8>) {
        if s.len() >= 2 {
            let x = (s[0] * 256 + s[1]) as u16;
            assert(be_u16(x) =~= s.take(2));
        }
    }

    fn write(&self, out: &mut Vec<u8>) {
        let x: u16 = *self;
        out.push((x / 256) as u8);
        out.push((x % 256) as u8);
        assert(out@ =~= old(out)@ + be_u16(x));
    }

    fn read(input: &[u8], pos: usize) -> (r: Option<(u16, usize)>) {
        if input.len() - pos >= 2 {
            let high: u16 = input[pos] as u16;
            let low: u16 = input[pos + 1] as u16;
            Some((high * 256 + low, pos + 2))
        } else {
            None
        }
    }
}

/// The digit of `x` to the base 256 at the place of the value `place`.
#[verifier::opaque]
pub open spec fn digit(x: u64, place: u64) -> u8 {
    ((x / place) % 256) as u8
}

/// Computes [`digit`].
fn digit_of(x: u64, place: u64) -> (d: u8)
    requires
        place > 0,
    ensures
        d == digit(x, place),
{
    reveal(digit);
    ((x / place) % 256) as u8
}

/// The eight bytes of `x`, most significant first.
pub open spec fn be_u64(x: u64) -> Seq<u8> {
    seq![
        digit(x, 0x0100_0000_0000_0000),
        digit(x, 0x0001_0000_0000_0000),
        digit(x, 0x0000_0100_0000_0000),
        digit(x, 0x0000_0001_0000_0000),
        digit(x, 0x0000_0000_0100_0000),
        digit(x, 0x0000_0000_0001_0000),
        digit(x, 0x0000_0000_0000_0100),
        digit(x, 1),
    ]
}

/// The number whose eight bytes, most significant first, `s` starts with.
pub open spec fn be_u64_value(s: Seq<u8>) -> u64
    recommends
        s.len() >= 8,
{
    (s[0] * 0x0100_0000_0000_0000 + s[1] * 0x0001_0000_0000_0000 + s[2] * 0x0000_0100_0000_0000
        + s[3] * 0x0000_0001_0000_0000 + s[4] * 0x0000_0000_0100_0000 + s[5]
        * 0x0000_0000_0001_0000 + s[6] * 0x0000_0000_0000_0100 + s[7]) as u64
}

/// A number is the sum of its digits, each at its place.
proof fn lemma_digits(x: u64)
    ensures
        x == digit(x, 0x0100_0000_0000_0000) * 0x0100_0000_0000_0000 + digit(
            x,
            0x0001_0000_0000_0000,
        ) * 0x0001_0000_0000_0000 + digit(x, 0x0000_0100_0000_0000) * 0x0000_0100_0000_0000
            + digit(x, 0x0000_0001_0000_0000) * 0x0000_0001_0000_0000 + digit(
            x,
            0x0000_0000_0100_0000,
        ) * 0x0000_0000_0100_0000 + digit(x, 0x0000_0000_0001_0000) * 0x0000_0000_0001_0000
            + digit(x, 0x0000_0000_0000_0100) * 0x0000_0000_0000_0100 + digit(x, 1),
{
    reveal(digit);
    let q1: int = x as int / 0x100;
    let q2: int = x as int / 0x1_0000;
    let q3: int = x as int / 0x100_0000;
    let q4: int = x as int / 0x1_0000_0000;
    let q5: int = x as int / 0x100_0000_0000;
    let q6: int = x as int / 0x1_0000_0000_0000;
    let q7: int = x as int / 0x100_0000_0000_0000;
    assert(q2 == q1 / 256) by {
        vstd::arithmetic::div_mod::lemma_div_denominator(x as int, 0x100, 256);
    }
    assert(q3 == q2 / 256) by {
        vstd::arithmetic::div_mod::lemma_div_denominator(x as int, 0x1_0000, 256);
    }
    assert(q4 == q3 / 256) by {
        vstd::arithmetic::div_mod::lemma_div_denominator(x as int, 0x100_0000, 256);
    }
    assert(q5 == q4 / 256) by {
        vstd::arithmetic::div_mod::lemma_div_denominator(x as int, 0x1_0000_0000, 256);
    }
    assert(q6 == q5 / 256) by {
        vstd::arithmetic::div_mod::lemma_div_denominator(x as int, 0x100_0000_0000, 256);
    }
    assert(q7 == q6 / 256) by {
        vstd::arithmetic::div_mod::lemma_div_denominator(x as int, 0x1_0000_0000_0000, 256);
    }
    assert(x as int == q1 * 256 + x as int % 256);
    assert(q1 == q2 * 256 + q1 % 256);
    assert(q2 == q3 * 256 + q2 % 256);
    assert(q3 == q4 * 256 + q3 % 256);
    assert(q4 == q5 * 256 + q4 % 256);
    assert(q5 == q6 * 256 + q5 % 256);
    assert(q6 == q7 * 256 + q6 % 256);
    assert(0 <= q7 < 256);
    assert(x as int / 1 == x as int);
}

/// The digits of the number that eight bytes stand for are those bytes.
pub proof fn lemma_digits_of_value(s: Seq<u8>)
    requires
        s.len() >= 8,
    ensures
        be_u64(be_u64_value(s)) == s.take(8),
{
    reveal(digit);
    let x = be_u64_value(s) as int;
    let q7: int = s[0] as int;
    let q6: int = q7 * 256 + s[1];
    let q5: int = q6 * 256 + s[2];
    let q4: int = q5 * 256 + s[3];
    let q3: int = q4 * 256 + s[4];
    let q2: int = q3 * 256 + s[5];
    let q1: int = q2 * 256 + s[6];
    assert(x == q1 * 256 + s[7]);
    assert(x / 0x100 == q1 && x % 256 == s[7]);
    assert(q1 / 256 == q2 && q1 % 256 == s[6]);
    assert(q2 / 256 == q3 && q2 % 256 == s[5]);
    assert(q3 / 256 == q4 && q3 % 256 == s[4]);
    assert(q4 / 256 == q5 && q4 % 256 == s[3]);
    assert(q5 / 256 == q6 && q5 % 256 == s[2]);
    assert(q6 / 256 == q7 && q6 % 256 == s[1]);
    assert(x / 0x1_0000 == q2) by {
        vstd::arithmetic::div_mod::lemma_div_denominator(x, 0x100, 256);
    }
    assert(x / 0x100_0000 == q3) by {
        vstd::arithmetic::div_mod::lemma_div_denominator(x, 0x1_0000, 256);
    }
    assert(x / 0x1_0000_0000 == q4) by {
        vstd::arithmetic::div_mod::lemma_div_denominator(x, 0x100_0000, 256);
    }
    assert(x / 0x100_0000_0000 == q5) by {
        vstd::arithmetic::div_mod::lemma_div_denominator(x, 0x1_0000_0000, 256);
    }
    assert(x / 0x1_0000_0000_0000 == q6) by {
        vstd::arithmetic::div_mod::lemma_div_denominator(x, 0x100_0000_0000, 256);
    }
    assert(x / 0x100_0000_0000_0000 == q7) by {
        vstd::arithmetic::div_mod::lemma_div_denominator(x, 0x1_0000_0000_0000, 256);
    }
    assert(x / 1 == x);
    assert(q7 % 256 == q7);
    assert(be_u64(be_u64_value(s)) =~= s.take(8));
}

/// Reading the eight bytes of a number gives the number.
pub proof fn lemma_be_u64_value(x: u64, rest: Seq<u8>)
    ensures
        be_u64(x).len() == 8,
        be_u64_value(be_u64(x) + rest) == x,
{
    let s = be_u64(x) + rest;
    assert(s[0] == be_u64(x)[0]);
    assert(s[1] == be_u64(x)[1]);
    assert(s[2] == be_u64(x)[2]);
    assert(s[3] == be_u64(x)[3]);
    assert(s[4] == be_u64(x)[4]);
    assert(s[5] == be_u64(x)[5]);
    assert(s[6] == be_u64(x)[6]);
    assert(s[7] == be_u64(x)[7]);
    lemma_digits(x);
}

/// Appends the eight bytes of `x` to `out`.
pub fn put_u64(x: u64, out: &mut Vec<u8>)
    ensures
        final(out)@ == old(out)@ + be_u64(x),
{
    let b0: u8 = digit_of(x, 0x0100_0000_0000_0000);
    let b1: u8 = digit_of(x, 0x0001_0000_0000_0000);
    let b2: u8 = digit_of(x, 0x0000_0100_0000_0000);
    let b3: u8 = digit_of(x, 0x0000_0001_0000_0000);
    let b4: u8 = digit_of(x, 0x0000_0000_0100_0000);
    let b5: u8 = digit_of(x, 0x0000_0000_0001_0000);
    let b6: u8 = digit_of(x, 0x0000_0000_0000_0100);
    let b7: u8 = digit_of(x, 1);
    let bytes: Vec<u8> = vec![b0, b1, b2, b3, b4, b5, b6, b7];
    assert(bytes@ =~= be_u64(x));
    out.extend_from_slice(bytes.as_slice());
}

/// Reads the number whose eight bytes start at `pos`, where there are eight.
pub fn take_u64(input: &[u8], pos: usize) -> (r: Option<(u64, usize)>)
    requires
        pos <= input@.len(),
    ensures
        match r {
            Some((x, end)) => input@.len() - pos >= 8 && x == be_u64_value(
                input@.skip(pos as int),
            ) && end == pos + 8,
            None => input@.len() - pos < 8,
        },
{
    if input.len() - pos >= 8 {
        let b0: u64 = input[pos] as u64;
        let b1: u64 = input[pos + 1] as u64;
        let b2: u64 = input[pos + 2] as u64;
        let b3: u64 = input[pos + 3] as u64;
        let b4: u64 = input[pos + 4] as u64;
        let b5: u64 = input[pos + 5] as u64;
        let b6: u64 = input[pos + 6] as u64;
        let b7: u64 = input[pos + 7] as u64;
        let value: u64 = b0 * 0x0100_0000_0000_0000 + b1 * 0x0001_0000_0000_0000 + b2
            * 0x0000_0100_0000_0000 + b3 * 0x0000_0001_0000_0000 + b4 * 0x0000_0000_0100_0000 + b5
            * 0x0000_0000_0001_0000 + b6 * 0x0000_0000_0000_0100 + b7;
        Some((value, pos + 8))
    } else {
        None
    }
}

impl Wire for u64 {
    type Model = u64;

    open spec fn model(&self) -> u64 {
        *self
    }

    open spec fn fits(m: u64) -> bool {
        true
    }

    open spec fn wire(m: u64) -> Seq<u8> {
        be_u64(m)
    }

    open spec fn parse(s: Seq<u8>) -> Option<(u64, int)> {
        if s.len() >= 8 {
            Some((be_u64_value(s), 8))
        } else {
            None
        }
    }

    proof fn lemma_parse_bounds(s: Seq<u8>) {
    }

    proof fn lemma_round_trip(m: u64, rest: Seq<u8>) {
        lemma_be_u64_value(m, rest);
    }

    proof fn lemma_parse_is_wire(s: Seq<u8>) {
        if s.len() >= 8 {
            lemma_digits_of_value(s);
        }
    }

    fn write(&self, out: &mut Vec<u8>) {
        put_u64(*self, out);
    }

    fn read(input: &[u8], pos: usize) -> (r: Option<(u64, usize)>) {
        take_u64(input, pos)
    }
}

} // verus!
