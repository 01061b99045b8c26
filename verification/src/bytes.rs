//! Fixed-width integers as byte sequences.
use vstd::prelude::*;
use vstd::slice::*;

verus! {

/// The `n` lowest bytes of `x`, lowest first.
pub open spec fn le_bytes(x: nat, n: nat) -> Seq<u8>
    decreases n,
{
    if n == 0 {
        Seq::empty()
    } else {
        seq![(x % 256) as u8] + le_bytes(x / 256, (n - 1) as nat)
    }
}

/// The number whose bytes, lowest first, are `s`.
pub open spec fn le_value(s: Seq<u8>) -> nat
    decreases s.len(),
{
    if s.len() == 0 {
        0
    } else {
        s[0] as nat + 256 * le_value(s.drop_first())
    }
}

/// `256` to the power `n`: how many numbers fit in `n` bytes.
pub open spec fn byte_range(n: nat) -> nat
    decreases n,
{
    if n == 0 {
        1
    } else {
        256 * byte_range((n - 1) as nat)
    }
}

/// The `n` lowest bytes of `x`, highest first.
pub open spec fn be_bytes(x: nat, n: nat) -> Seq<u8> {
    le_bytes(x, n).reverse()
}

/// The number whose bytes, highest first, are `s`.
pub open spec fn be_value(s: Seq<u8>) -> nat {
    le_value(s.reverse())
}

/// The two's complement bits of `x`, read as an unsigned number.
pub open spec fn signed_bits(x: i64) -> nat {
    if x >= 0 {
        x as nat
    } else {
        (x + 0x1_0000_0000_0000_0000) as nat
    }
}

/// The signed number whose two's complement bits are `u`.
pub open spec fn signed_value(u: nat) -> i64 {
    if u < 0x8000_0000_0000_0000 {
        u as i64
    } else {
        (u - 0x1_0000_0000_0000_0000) as i64
    }
}

pub proof fn lemma_le_bytes_len(x: nat, n: nat)
    ensures
        le_bytes(x, n).len() == n,
    decreases n,
{
    if n > 0 {
        lemma_le_bytes_len(x / 256, (n - 1) as nat);
    }
}

pub proof fn lemma_le_value_bound(s: Seq<u8>)
    ensures
        le_value(s) < byte_range(s.len()),
    decreases s.len(),
{
    if s.len() > 0 {
        lemma_le_value_bound(s.drop_first());
    }
}

/// What is written in `n` bytes is read back, if it fits in `n` bytes.
pub proof fn lemma_le_round_trip(x: nat, n: nat)
    requires
        x < byte_range(n),
    ensures
        le_bytes(x, n).len() == n,
        le_value(le_bytes(x, n)) == x,
    decreases n,
{
    lemma_le_bytes_len(x, n);
    if n > 0 {
        assert(x / 256 < byte_range((n - 1) as nat));
        lemma_le_round_trip(x / 256, (n - 1) as nat);
        assert(le_bytes(x, n).drop_first() =~= le_bytes(x / 256, (n - 1) as nat));
    }
}

/// Bytes read as a number are written back as the same bytes.
pub proof fn lemma_le_bytes_of_value(s: Seq<u8>)
    ensures
        le_bytes(le_value(s), s.len()) == s,
    decreases s.len(),
{
    if s.len() > 0 {
        lemma_le_bytes_of_value(s.drop_first());
        let v = le_value(s);
        assert(v % 256 == s[0] as nat && v / 256 == le_value(s.drop_first()));
        assert(le_bytes(v, s.len()) =~= s);
    } else {
        assert(le_bytes(le_value(s), s.len()) =~= s);
    }
}

pub proof fn lemma_byte_ranges()
    ensures
        byte_range(2) == 0x1_0000,
        byte_range(4) == 0x1_0000_0000,
        byte_range(8) == 0x1_0000_0000_0000_0000,
{
    reveal_with_fuel(byte_range, 9);
}

/// The bits of a signed number give the number back.
pub proof fn lemma_signed_round_trip(x: i64)
    ensures
        signed_bits(x) < 0x1_0000_0000_0000_0000,
        signed_value(signed_bits(x)) == x,
{
}

/// Appends the `n` lowest bytes of `x`, lowest first.
pub fn push_le(out: &mut Vec<u8>, x: u64, n: usize)
    ensures
        final(out)@ == old(out)@ + le_bytes(x as nat, n as nat),
    decreases n,
{
    if n > 0 {
        out.push((x % 256) as u8);
        push_le(out, x / 256, n - 1);
    }
    assert(out@ =~= old(out)@ + le_bytes(x as nat, n as nat));
}

/// The number held in the `n` bytes of `data` from `at` on, lowest first.
pub fn read_le(data: &[u8], at: usize, n: usize) -> (r: u64)
    requires
        at + n <= data@.len(),
        n <= 8,
    ensures
        r == le_value(data@.subrange(at as int, at + n)),
        r < byte_range(n as nat),
    decreases n,
{
    assert(data@.len() == data.len());
    proof {
        lemma_le_value_bound(data@.subrange(at as int, at + n));
    }
    if n == 0 {
        0
    } else {
        let rest = read_le(data, at + 1, n - 1);
        proof {
            assert(data@.subrange(at as int, at + n).drop_first() =~= data@.subrange(
                at + 1,
                at + n,
            ));
            reveal_with_fuel(byte_range, 9);
        }
        data[at] as u64 + 256 * rest
    }
}

pub fn bits_of_signed(x: i64) -> (r: u64)
    ensures
        r == signed_bits(x),
{
    assert(x >= 0 ==> (x as u64) == x) by (bit_vector);
    assert(x < 0 ==> (x as u64) == x + 0x1_0000_0000_0000_0000) by (bit_vector);
    x as u64
}

pub fn signed_of_bits(u: u64) -> (r: i64)
    ensures
        r == signed_value(u as nat),
{
    assert(u < 0x8000_0000_0000_0000 ==> (u as i64) == u) by (bit_vector);
    assert(u >= 0x8000_0000_0000_0000 ==> (u as i64) == u - 0x1_0000_0000_0000_0000)
        by (bit_vector);
    u as i64
}

/// The four bytes of `x`, highest first.
pub fn be_bytes_u32(x: u32) -> (r: Vec<u8>)
    ensures
        r@ == be_bytes(x as nat, 4),
{
    let mut out: Vec<u8> = Vec::new();
    out.push((x / 0x100_0000) as u8);
    out.push((x / 0x1_0000 % 256) as u8);
    out.push((x / 256 % 256) as u8);
    out.push((x % 256) as u8);
    proof {
        reveal_with_fuel(le_bytes, 5);
        assert(out@ =~= be_bytes(x as nat, 4));
    }
    out
}

/// The number held in the first four bytes of `s`, highest first.
pub fn be_value_u32(s: &[u8]) -> (r: u32)
    requires
        s@.len() == 4,
    ensures
        r == be_value(s@),
{
    proof {
        reveal_with_fuel(le_value, 5);
        let t = s@.reverse();
        assert(t.drop_first().drop_first().drop_first().drop_first() =~= Seq::<u8>::empty());
    }
    s[0] as u32 * 0x100_0000 + s[1] as u32 * 0x1_0000 + s[2] as u32 * 256 + s[3] as u32
}

/// A number of four bytes survives writing and reading, highest byte first.
pub proof fn lemma_be_round_trip(x: nat)
    requires
        x < 0x1_0000_0000,
    ensures
        be_bytes(x, 4).len() == 4,
        be_value(be_bytes(x, 4)) == x,
{
    lemma_byte_ranges();
    lemma_le_round_trip(x, 4);
    assert(le_bytes(x, 4).reverse().reverse() =~= le_bytes(x, 4));
}

/// Appends all of `data`.
pub fn push_bytes(out: &mut Vec<u8>, data: &[u8])
    ensures
        final(out)@ == old(out)@ + data@,
{
    out.extend_from_slice(data);
    assert(out@ =~= old(out)@ + data@);
}

/// A copy of the bytes of `data` from `from` up to `to`.
pub fn copy_range(data: &[u8], from: usize, to: usize) -> (r: Vec<u8>)
    requires
        from <= to <= data@.len(),
    ensures
        r@ == data@.subrange(from as int, to as int),
{
    slice_to_vec(slice_subrange(data, from, to))
}

/// `n` zero bytes.
pub open spec fn zeros(n: nat) -> Seq<u8> {
    Seq::new(n, |i: int| 0u8)
}

pub fn zero_bytes(n: usize) -> (r: Vec<u8>)
    ensures
        r@ == zeros(n as nat),
{
    let r = vec![0u8; n];
    assert(r@ =~= zeros(n as nat));
    r
}

/// The bytes `s` with `data` in place of what stood at `at`.
pub open spec fn put_bytes(s: Seq<u8>, at: int, data: Seq<u8>) -> Seq<u8> {
    Seq::new(
        s.len(),
        |i: int|
            if at <= i < at + data.len() {
                data[i - at]
            } else {
                s[i]
            },
    )
}

/// Puts `data` in place of what stands at `at`.
pub fn overwrite(region: &mut [u8], at: usize, data: &[u8])
    requires
        at + data@.len() <= old(region)@.len(),
    ensures
        final(region)@ == put_bytes(old(region)@, at as int, data@),
{
    let ghost before = region@;
    assert(region@.len() == region.len());
    let mut i: usize = 0;
    while i < data.len()
        invariant
            i <= data@.len(),
            at + data@.len() <= before.len(),
            before.len() <= usize::MAX,
            region@.len() == before.len(),
            region@ == put_bytes(before, at as int, data@.take(i as int)),
        decreases data@.len() - i,
    {
        region[at + i] = data[i];
        i += 1;
        assert(region@ =~= put_bytes(before, at as int, data@.take(i as int)));
    }
    assert(data@.take(i as int) =~= data@);
    assert(region@ =~= put_bytes(before, at as int, data@));
}

/// Whether `needle` stands in `s` at `i`.
pub open spec fn has_at(s: Seq<u8>, needle: Seq<u8>, i: int) -> bool {
    i + needle.len() <= s.len() && s.subrange(i, i + needle.len()) == needle
}

/// The first index from `i` on at which `needle` stands.
pub open spec fn bytes_from(s: Seq<u8>, needle: Seq<u8>, i: int) -> Option<int>
    decreases s.len() + 1 - i,
{
    if i + needle.len() > s.len() {
        None
    } else if has_at(s, needle, i) {
        Some(i)
    } else {
        bytes_from(s, needle, i + 1)
    }
}

/// Whether `needle` stands in `s` at `at`.
pub fn is_there(s: &[u8], needle: &[u8], at: usize) -> (r: bool)
    requires
        at <= s@.len(),
    ensures
        r == has_at(s@, needle@, at as int),
{
    assert(s@.len() == s.len());
    if needle.len() > s.len() - at {
        return false;
    }
    let mut i: usize = 0;
    while i < needle.len()
        invariant
            i <= needle@.len(),
            at + needle@.len() <= s@.len(),
            s@.len() == s.len(),
            forall|j: int| 0 <= j < i ==> s@[at + j] == #[trigger] needle@[j],
        decreases needle@.len() - i,
    {
        if s[at + i] != needle[i] {
            assert(s@.subrange(at as int, at + needle@.len())[i as int] != needle@[i as int]);
            return false;
        }
        i += 1;
    }
    assert(s@.subrange(at as int, at + needle@.len()) =~= needle@);
    true
}

/// Where `needle` stands first from `from` on.
pub fn find_bytes(s: &[u8], needle: &[u8], from: usize) -> (r: Option<usize>)
    requires
        from <= s@.len(),
    ensures
        match r {
            Some(i) => bytes_from(s@, needle@, from as int) == Some(i as int) && from <= i && i
                + needle@.len() <= s@.len(),
            None => bytes_from(s@, needle@, from as int) is None,
        },
{
    assert(s@.len() == s.len());
    let mut i = from;
    while needle.len() <= s.len() - i
        invariant
            from <= i <= s@.len(),
            s@.len() == s.len(),
            bytes_from(s@, needle@, from as int) == bytes_from(s@, needle@, i as int),
        decreases s@.len() - i,
    {
        if is_there(s, needle, i) {
            return Some(i);
        }
        if i == s.len() {
            assert(bytes_from(s@, needle@, i + 1) is None);
            return None;
        }
        i += 1;
    }
    None
}

} // verus!
