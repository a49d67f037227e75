//! Little-endian numerals, the building block of the wire format.

use vstd::prelude::*;
use vstd::arithmetic::div_mod::lemma_div_denominator;

verus! {

/// `256` to the power `width`: the number of values that `width` bytes can hold.
pub open spec fn radix_pow(width: nat) -> nat
    decreases width,
{
    if width == 0 {
        1
    } else {
        256 * radix_pow((width - 1) as nat)
    }
}

/// The first `width` bytes of the little-endian numeral of `v`.
pub open spec fn le_bytes(v: nat, width: nat) -> Seq<u8>
    decreases width,
{
    if width == 0 {
        Seq::empty()
    } else {
        seq![(v % 256) as u8] + le_bytes(v / 256, (width - 1) as nat)
    }
}

/// The number that `bytes` denote, least significant byte first.
pub open spec fn le_value(bytes: Seq<u8>) -> nat
    decreases bytes.len(),
{
    if bytes.len() == 0 {
        0
    } else {
        bytes[0] as nat + 256 * le_value(bytes.skip(1))
    }
}

/// The powers of 256 that the format uses.
pub proof fn lemma_radix_pow_values()
    ensures
        radix_pow(0) == 1,
        radix_pow(1) == 0x100,
        radix_pow(2) == 0x1_0000,
        radix_pow(4) == 0x1_0000_0000,
        radix_pow(8) == 0x1_0000_0000_0000_0000,
{
    reveal_with_fuel(radix_pow, 9);
}

/// A power of 256 is positive.
pub proof fn lemma_radix_pow_positive(width: nat)
    ensures
        radix_pow(width) > 0,
    decreases width,
{
    if width > 0 {
        lemma_radix_pow_positive((width - 1) as nat);
    }
}

/// A numeral of `width` bytes has `width` bytes.
pub proof fn lemma_le_bytes_len(v: nat, width: nat)
    ensures
        le_bytes(v, width).len() == width,
    decreases width,
{
    if width > 0 {
        lemma_le_bytes_len(v / 256, (width - 1) as nat);
    }
}

/// One more byte of a numeral is the next digit of `v` in base 256.
pub proof fn lemma_le_bytes_push(v: nat, width: nat)
    ensures
        le_bytes(v, width + 1) == le_bytes(v, width).push(((v / radix_pow(width)) % 256) as u8),
    decreases width,
{
    if width == 0 {
        assert(radix_pow(0) == 1);
        assert(le_bytes(v / 256, 0) =~= Seq::empty());
        assert(le_bytes(v, 0) =~= Seq::empty());
        assert(le_bytes(v, 1) =~= Seq::<u8>::empty().push((v % 256) as u8));
    } else {
        let w = (width - 1) as nat;
        lemma_le_bytes_push(v / 256, w);
        lemma_radix_pow_positive(w);
        lemma_div_denominator(v as int, 256, radix_pow(w) as int);
        assert(256 * radix_pow(w) == radix_pow(width));
        assert((v / 256) / radix_pow(w) == v / radix_pow(width));
        assert(le_bytes(v, width + 1) =~= seq![(v % 256) as u8] + le_bytes(v / 256, width));
        assert(le_bytes(v, width) =~= seq![(v % 256) as u8] + le_bytes(v / 256, w));
        assert(le_bytes(v, width + 1) =~= le_bytes(v, width).push(
            ((v / radix_pow(width)) % 256) as u8,
        ));
    }
}

/// Reading back a numeral gives the number, where the number fits the width.
pub proof fn lemma_le_value_of_bytes(v: nat, width: nat)
    requires
        v < radix_pow(width),
    ensures
        le_value(le_bytes(v, width)) == v,
    decreases width,
{
    if width > 0 {
        let w = (width - 1) as nat;
        let rest = le_bytes(v / 256, w);
        assert(v / 256 < radix_pow(w)) by {
            assert(v < 256 * radix_pow(w));
        }
        lemma_le_value_of_bytes(v / 256, w);
        let all = le_bytes(v, width);
        assert(all.skip(1) =~= rest);
        assert(all[0] == (v % 256) as u8);
        assert(v == v % 256 + 256 * (v / 256));
    }
}

/// What a byte string denotes is below the power of its length, and writing
/// it down again gives the same bytes.
pub proof fn lemma_le_bytes_of_value(bytes: Seq<u8>)
    ensures
        le_value(bytes) < radix_pow(bytes.len()),
        le_bytes(le_value(bytes), bytes.len()) == bytes,
    decreases bytes.len(),
{
    if bytes.len() > 0 {
        let rest = bytes.skip(1);
        lemma_le_bytes_of_value(rest);
        let v = le_value(bytes);
        let r = le_value(rest);
        assert(v == bytes[0] as nat + 256 * r);
        assert(v % 256 == bytes[0] as nat && v / 256 == r) by {
            vstd::arithmetic::div_mod::lemma_fundamental_div_mod_converse(
                v as int,
                256,
                r as int,
                bytes[0] as int,
            );
        }
        assert(v < 256 * radix_pow(rest.len())) by {
            assert(r + 1 <= radix_pow(rest.len()));
            assert(256 * (r + 1) <= 256 * radix_pow(rest.len())) by (nonlinear_arith)
                requires
                    r + 1 <= radix_pow(rest.len()),
            ;
        }
        assert(le_bytes(v, bytes.len()) =~= seq![bytes[0]] + le_bytes(r, rest.len()));
        assert(seq![bytes[0]] + rest =~= bytes);
    } else {
        assert(le_bytes(0, 0) =~= bytes);
    }
}

/// Appends the `width` low bytes of `v` to `out`, least significant first.
pub fn write_le(out: &mut Vec<u8>, v: u64, width: usize)
    requires
        width <= 8,
    ensures
        final(out)@ == old(out)@ + le_bytes(v as nat, width as nat),
{
    let mut rest: u64 = v;
    let mut done: usize = 0;
    assert(le_bytes(v as nat, 0) =~= Seq::empty());
    assert(out@ =~= old(out)@ + le_bytes(v as nat, 0));
    proof {
        lemma_radix_pow_values();
    }
    while done < width
        invariant
            done <= width <= 8,
            rest as nat == (v as nat) / radix_pow(done as nat),
            out@ == old(out)@ + le_bytes(v as nat, done as nat),
        decreases width - done,
    {
        proof {
            lemma_le_bytes_push(v as nat, done as nat);
            lemma_radix_pow_positive(done as nat);
            lemma_div_denominator(v as int, radix_pow(done as nat) as int, 256);
            assert(radix_pow(done as nat) * 256 == radix_pow((done + 1) as nat));
        }
        let digit: u8 = (rest % 256) as u8;
        out.push(digit);
        rest = rest / 256;
        done = done + 1;
        assert(out@ =~= old(out)@ + le_bytes(v as nat, done as nat));
    }
}

/// Reads the number that the `width` bytes of `bytes` from `pos` on denote.
pub fn read_le(bytes: &[u8], pos: usize, width: usize) -> (v: u64)
    requires
        width <= 8,
        pos + width <= bytes@.len(),
    ensures
        v as nat == le_value(bytes@.subrange(pos as int, pos + width)),
{
    let mut acc: u64 = 0;
    let mut left: usize = width;
    let total = bytes.len();
    proof {
        lemma_radix_pow_values();
    }
    while left > 0
        invariant
            left <= width <= 8,
            pos + width <= bytes@.len(),
            total == bytes@.len(),
            acc as nat == le_value(bytes@.subrange(pos + left, pos + width)),
            (acc as nat) < radix_pow((width - left) as nat),
        decreases left,
    {
        let ghost upper = bytes@.subrange(pos + left, pos + width);
        left = left - 1;
        let digit: u8 = bytes[pos + left];
        proof {
            let lower = bytes@.subrange(pos + left, pos + width);
            assert(lower.skip(1) =~= upper);
            assert(lower[0] == digit);
            assert(le_value(lower) == digit as nat + 256 * (acc as nat));
            let p = radix_pow((width - left - 1) as nat);
            assert(radix_pow((width - left) as nat) == 256 * p);
            assert(digit as nat + 256 * (acc as nat) < 256 * p) by (nonlinear_arith)
                requires
                    (acc as nat) + 1 <= p,
                    (digit as nat) < 256,
            ;
            lemma_radix_pow_bounded((width - left) as nat);
        }
        acc = acc * 256 + digit as u64;
    }
    acc
}

/// Up to eight bytes hold no more than a `u64` does.
pub proof fn lemma_radix_pow_bounded(width: nat)
    requires
        width <= 8,
    ensures
        radix_pow(width) <= 0x1_0000_0000_0000_0000,
{
    reveal_with_fuel(radix_pow, 9);
}

} // verus!
