//! Fixed-width integers as bytes.

use vstd::prelude::*;

verus! {

/// The number that bytes stand for, the most significant first.
pub open spec fn be_value(b: Seq<u8>) -> nat
    decreases b.len(),
{
    if b.len() == 0 {
        0
    } else {
        be_value(b.drop_last()) * 256 + b.last() as nat
    }
}

/// `n` in `width` bytes, the most significant first.
pub open spec fn be_bytes(n: nat, width: nat) -> Seq<u8>
    decreases width,
{
    if width == 0 {
        Seq::empty()
    } else {
        be_bytes(n / 256, (width - 1) as nat).push((n % 256) as u8)
    }
}

/// How many numbers `width` bytes can hold.
pub open spec fn be_limit(width: nat) -> nat
    decreases width,
{
    if width == 0 {
        1
    } else {
        256 * be_limit((width - 1) as nat)
    }
}

/// `be_bytes` has the asked width, and reads back as the number where it fits.
pub proof fn lemma_be_round_trip(n: nat, width: nat)
    ensures
        be_bytes(n, width).len() == width,
        n < be_limit(width) ==> be_value(be_bytes(n, width)) == n,
    decreases width,
{
    if width > 0 {
        lemma_be_round_trip(n / 256, (width - 1) as nat);
        assert(be_bytes(n, width).drop_last() =~= be_bytes(n / 256, (width - 1) as nat));
    }
}

/// Bytes hold a number below the limit of their width, and are the bytes of
/// that number.
pub proof fn lemma_be_value(b: Seq<u8>)
    ensures
        be_value(b) < be_limit(b.len()),
        be_bytes(be_value(b), b.len()) == b,
    decreases b.len(),
{
    if b.len() > 0 {
        lemma_be_value(b.drop_last());
        assert(be_value(b) / 256 == be_value(b.drop_last()));
        assert(be_value(b) % 256 == b.last() as nat);
        assert(b =~= b.drop_last().push(b.last()));
    } else {
        assert(be_bytes(be_value(b), 0) =~= b);
    }
}

pub proof fn lemma_be_limits()
    ensures
        be_limit(4) == 0x1_0000_0000,
        be_limit(8) == 0x1_0000_0000_0000_0000,
        be_limit(16) == 0x1_0000_0000_0000_0000_0000_0000_0000_0000,
{
    reveal_with_fuel(be_limit, 17);
}

/// Appends `n` in `width` big-endian bytes.
pub fn put_be(out: &mut Vec<u8>, n: u128, width: usize)
    ensures
        final(out)@ == old(out)@ + be_bytes(n as nat, width as nat),
    decreases width,
{
    if width == 0 {
        assert(out@ + be_bytes(n as nat, 0) =~= out@);
    } else {
        let ghost before = out@;
        put_be(out, n / 256, width - 1);
        out.push((n % 256) as u8);
        assert(out@ =~= before + be_bytes(n as nat, width as nat));
    }
}

/// Reads `width` big-endian bytes at `at`.
pub fn get_be(b: &[u8], at: usize, width: usize) -> (n: u128)
    requires
        width <= 16,
        at + width <= b@.len(),
    ensures
        n as nat == be_value(b@.subrange(at as int, at + width)),
{
    let mut n: u128 = 0;
    let mut i: usize = 0;
    assert(be_value(b@.subrange(at as int, at as int)) == 0);
    while i < width
        invariant
            i <= width <= 16,
            at + width <= b.len(),
            n as nat == be_value(b@.subrange(at as int, at + i)),
        decreases width - i,
    {
        proof {
            let part = b@.subrange(at as int, at + i + 1);
            assert(part.drop_last() =~= b@.subrange(at as int, at + i));
            lemma_be_value(part);
            lemma_be_limit_grows(i as nat + 1, 16);
            lemma_be_limits();
        }
        n = n * 256 + b[at + i] as u128;
        i = i + 1;
    }
    n
}

/// The number that bytes stand for, the least significant first.
pub open spec fn le_value(b: Seq<u8>) -> nat {
    be_value(b.reverse())
}

/// Reads `width` little-endian bytes at `at`.
pub fn get_le(b: &[u8], at: usize, width: usize) -> (n: u128)
    requires
        width <= 16,
        at + width <= b@.len(),
    ensures
        n as nat == le_value(b@.subrange(at as int, at + width)),
{
    let ghost back = b@.subrange(at as int, at + width).reverse();
    let mut n: u128 = 0;
    let mut i: usize = 0;
    assert(be_value(back.take(0)) == 0);
    while i < width
        invariant
            i <= width <= 16,
            at + width <= b.len(),
            back == b@.subrange(at as int, at + width).reverse(),
            n as nat == be_value(back.take(i as int)),
        decreases width - i,
    {
        proof {
            let part = back.take(i + 1);
            assert(part.drop_last() =~= back.take(i as int));
            assert(part.last() == b@[at + width - 1 - i]);
            lemma_be_value(part);
            lemma_be_limit_grows(i as nat + 1, 16);
            lemma_be_limits();
        }
        n = n * 256 + b[at + (width - 1 - i)] as u128;
        i = i + 1;
    }
    assert(back.take(i as int) =~= back);
    n
}

proof fn lemma_be_limit_grows(a: nat, b: nat)
    requires
        a <= b,
    ensures
        0 < be_limit(a) <= be_limit(b),
    decreases b,
{
    if b == 0 {
    } else if a == b {
        lemma_be_limit_grows((a - 1) as nat, (b - 1) as nat);
    } else {
        lemma_be_limit_grows(a, (b - 1) as nat);
    }
}

/// The most significant byte comes first: each further byte is worth a 256th
/// of the one before it, and bytes keep their number.
pub proof fn law_most_significant_byte_first(b: Seq<u8>, last: u8, n: nat, width: nat)
    ensures
        be_value(Seq::empty()) == 0,
        be_value(b.push(last)) == 256 * be_value(b) + last,
        be_bytes(be_value(b), b.len()) == b,
        be_bytes(n, width).len() == width,
        be_bytes(n, width + 1) == be_bytes(n / 256, width).push((n % 256) as u8),
        le_value(seq![last] + b) == 256 * le_value(b) + last,
{
    assert(b.push(last).drop_last() =~= b);
    lemma_be_value(b);
    lemma_be_round_trip(n, width);
    assert((seq![last] + b).reverse() =~= b.reverse().push(last));
    assert(b.reverse().push(last).drop_last() =~= b.reverse());
}

} // verus!
