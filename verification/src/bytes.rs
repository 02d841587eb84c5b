//! Little-endian integers in byte sequences.

use vstd::prelude::*;

verus! {

/// The number that `s` spells, least significant byte first.
pub open spec fn le_value(s: Seq<u8>) -> nat
    decreases s.len(),
{
    if s.len() == 0 {
        0
    } else {
        s[0] as nat + 256 * le_value(s.drop_first())
    }
}

/// The `width` low-order bytes of `n`, least significant byte first.
pub open spec fn le_bytes(n: nat, width: nat) -> Seq<u8>
    decreases width,
{
    if width == 0 {
        Seq::empty()
    } else {
        seq![(n % 256) as u8] + le_bytes(n / 256, (width - 1) as nat)
    }
}

/// The number of values that `width` bytes can spell.
pub open spec fn byte_range(width: nat) -> nat
    decreases width,
{
    if width == 0 {
        1
    } else {
        256 * byte_range((width - 1) as nat)
    }
}

/// `le_bytes` always gives `width` bytes.
pub proof fn lemma_le_bytes_len(n: nat, width: nat)
    ensures
        le_bytes(n, width).len() == width,
    decreases width,
{
    if width > 0 {
        lemma_le_bytes_len(n / 256, (width - 1) as nat);
    }
}

/// Reading back the bytes of a number that fits gives the number.
pub proof fn lemma_le_round_trip(n: nat, width: nat)
    requires
        n < byte_range(width),
    ensures
        le_value(le_bytes(n, width)) == n,
    decreases width,
{
    if width > 0 {
        let rest = le_bytes(n / 256, (width - 1) as nat);
        lemma_le_round_trip(n / 256, (width - 1) as nat);
        assert(le_bytes(n, width).drop_first() =~= rest);
    }
}

/// Four bytes spell every number below 2^32.
pub proof fn lemma_byte_range_4()
    ensures
        byte_range(4) == 0x1_0000_0000,
{
    reveal_with_fuel(byte_range, 5);
}

/// Eight bytes spell every number below 2^64.
pub proof fn lemma_byte_range_8()
    ensures
        byte_range(8) == 0x1_0000_0000_0000_0000,
{
    reveal_with_fuel(byte_range, 9);
}

/// Appends `x` as four bytes.
pub fn push_u32_le(out: &mut Vec<u8>, x: u32)
    ensures
        final(out)@ == old(out)@ + le_bytes(x as nat, 4),
{
    let ghost before = out@;
    let mut rest: u32 = x;
    let mut i: usize = 0;
    proof {
        lemma_le_bytes_len(x as nat, 4);
    }
    while i < 4
        invariant
            i <= 4,
            before + le_bytes(x as nat, 4) =~= out@ + le_bytes(rest as nat, (4 - i) as nat),
        decreases 4 - i,
    {
        proof {
            lemma_le_bytes_len(rest as nat, (4 - i) as nat);
            lemma_le_bytes_len((rest / 256) as nat, (3 - i) as nat);
        }
        out.push((rest % 256) as u8);
        rest = rest / 256;
        i = i + 1;
    }
}

/// Appends `x` as eight bytes.
pub fn push_u64_le(out: &mut Vec<u8>, x: u64)
    ensures
        final(out)@ == old(out)@ + le_bytes(x as nat, 8),
{
    let ghost before = out@;
    let mut rest: u64 = x;
    let mut i: usize = 0;
    proof {
        lemma_le_bytes_len(x as nat, 8);
    }
    while i < 8
        invariant
            i <= 8,
            before + le_bytes(x as nat, 8) =~= out@ + le_bytes(rest as nat, (8 - i) as nat),
        decreases 8 - i,
    {
        proof {
            lemma_le_bytes_len(rest as nat, (8 - i) as nat);
            lemma_le_bytes_len((rest / 256) as nat, (7 - i) as nat);
        }
        out.push((rest % 256) as u8);
        rest = rest / 256;
        i = i + 1;
    }
}

/// Reads four bytes at `pos`.
pub fn read_u32_le(bytes: &[u8], pos: usize) -> (x: u32)
    requires
        pos + 4 <= bytes@.len(),
    ensures
        x == le_value(bytes@.subrange(pos as int, pos + 4)),
{
    proof {
        let s = bytes@.subrange(pos as int, pos + 4);
        reveal_with_fuel(le_value, 5);
        assert(s.drop_first().drop_first().drop_first().drop_first() =~= Seq::<u8>::empty());
    }
    let b0 = bytes[pos] as u32;
    let b1 = bytes[pos + 1] as u32;
    let b2 = bytes[pos + 2] as u32;
    let b3 = bytes[pos + 3] as u32;
    b0 + 256 * (b1 + 256 * (b2 + 256 * b3))
}

/// Reads eight bytes at `pos`.
pub fn read_u64_le(bytes: &[u8], pos: usize) -> (x: u64)
    requires
        pos + 8 <= bytes@.len(),
    ensures
        x == le_value(bytes@.subrange(pos as int, pos + 8)),
{
    let len: usize = bytes.len();
    assert(pos + 8 <= len);
    let low = read_u32_le(bytes, pos);
    let high = read_u32_le(bytes, pos + 4);
    proof {
        let s = bytes@.subrange(pos as int, pos + 8);
        let tail = s.drop_first().drop_first().drop_first().drop_first();
        assert(tail =~= bytes@.subrange(pos + 4, pos + 8));
        assert(bytes@.subrange(pos as int, pos + 4).drop_first().drop_first().drop_first().drop_first()
            =~= Seq::<u8>::empty());
        reveal_with_fuel(le_value, 5);
    }
    low as u64 + 4294967296 * (high as u64)
}

/// Four bytes are written least significant first, behind what was there.
pub proof fn law_u32_is_written_low_byte_first(out: &mut Vec<u8>, x: u32)
    requires
        call_ensures(push_u32_le, (out, x), ()),
    ensures
        ({
            let n = old(out)@.len() as int;
            &&& final(out)@.len() == n + 4
            &&& final(out)@.take(n) == old(out)@
            &&& final(out)@[n] == x as int % 256
            &&& final(out)@[n + 1] == x as int / 256 % 256
            &&& final(out)@[n + 2] == x as int / 65536 % 256
            &&& final(out)@[n + 3] == x as int / 16777216
        }),
{
    let n = old(out)@.len() as int;
    reveal_with_fuel(le_bytes, 5);
    let y = x as nat;
    assert(y / 256 / 256 == y / 65536);
    assert(y / 65536 / 256 == y / 16777216);
    assert(final(out)@.take(n) =~= old(out)@);
}

/// Eight bytes are two times four, the low four first.
pub proof fn law_u64_is_two_halves(
    out: &mut Vec<u8>,
    x: u64,
    low: &mut Vec<u8>,
    high: &mut Vec<u8>,
)
    requires
        call_ensures(push_u64_le, (out, x), ()),
        call_ensures(push_u32_le, (low, (x as int % 0x1_0000_0000) as u32), ()),
        call_ensures(push_u32_le, (high, (x as int / 0x1_0000_0000) as u32), ()),
        *old(low) == *old(out),
        *old(high) == *final(low),
    ensures
        final(out)@ == final(high)@,
{
    let y = x as nat;
    let (l, h) = (y % 0x1_0000_0000, y / 0x1_0000_0000);
    reveal_with_fuel(le_bytes, 9);
    let n1 = y / 256;
    let n2 = n1 / 256;
    let n3 = n2 / 256;
    let n4 = n3 / 256;
    let l1 = l / 256;
    let l2 = l1 / 256;
    let l3 = l2 / 256;
    assert(n4 == h);
    assert(y % 256 == l % 256);
    assert(n1 % 256 == l1 % 256);
    assert(n2 % 256 == l2 % 256);
    assert(n3 % 256 == l3 % 256);
    assert(le_bytes(y, 8) =~= le_bytes(l, 4) + le_bytes(h, 4));
    assert(final(out)@ =~= final(high)@);
}

/// Reading gives back what was written, wherever it stands.
pub proof fn law_written_integers_are_read(
    out: &mut Vec<u8>,
    wide: &mut Vec<u8>,
    x: u32,
    y: u64,
    bytes: &[u8],
    pos: usize,
    rx: u32,
    ry: u64,
)
    requires
        pos <= bytes@.len(),
        call_ensures(push_u32_le, (out, x), ()),
        call_ensures(read_u32_le, (bytes, pos), rx),
        call_ensures(push_u64_le, (wide, y), ()),
        call_ensures(read_u64_le, (bytes, pos), ry),
    ensures
        pos + 4 <= bytes@.len() && bytes@.subrange(pos as int, pos + 4) == final(out)@.skip(
            old(out)@.len() as int,
        ) ==> rx == x,
        pos + 8 <= bytes@.len() && bytes@.subrange(pos as int, pos + 8) == final(wide)@.skip(
            old(wide)@.len() as int,
        ) ==> ry == y,
{
    lemma_byte_range_4();
    lemma_byte_range_8();
    lemma_le_bytes_len(x as nat, 4);
    lemma_le_bytes_len(y as nat, 8);
    lemma_le_round_trip(x as nat, 4);
    lemma_le_round_trip(y as nat, 8);
    assert(final(out)@.skip(old(out)@.len() as int) =~= le_bytes(x as nat, 4));
    assert(final(wide)@.skip(old(wide)@.len() as int) =~= le_bytes(y as nat, 8));
}

/// The four bytes of a number, least significant first.
pub proof fn lemma_four_bytes(n: nat)
    requires
        n < 0x1_0000_0000,
    ensures
        le_bytes(n, 4).len() == 4,
        le_bytes(n, 4)[0] == n % 256,
        le_bytes(n, 4)[1] == n / 256 % 256,
        le_bytes(n, 4)[2] == n / 65536 % 256,
        le_bytes(n, 4)[3] == n / 16777216,
{
    lemma_le_bytes_len(n, 4);
    let n1 = n / 256;
    let n2 = n1 / 256;
    let n3 = n2 / 256;
    assert(n2 == n / 65536);
    assert(n3 == n / 16777216);
    lemma_le_bytes_len(n1, 3);
    lemma_le_bytes_len(n2, 2);
    lemma_le_bytes_len(n3, 1);
    assert(le_bytes(n, 4)[1] == le_bytes(n1, 3)[0]);
    assert(le_bytes(n, 4)[2] == le_bytes(n1, 3)[1]);
    assert(le_bytes(n1, 3)[1] == le_bytes(n2, 2)[0]);
    assert(le_bytes(n, 4)[3] == le_bytes(n1, 3)[2]);
    assert(le_bytes(n1, 3)[2] == le_bytes(n2, 2)[1]);
    assert(le_bytes(n2, 2)[1] == le_bytes(n3, 1)[0]);
}

} // verus!
