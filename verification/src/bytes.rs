use vstd::prelude::*;

verus! {

/// `256` raised to the power `n`: one more than the largest value `n` bytes hold.
pub open spec fn byte_bound(n: nat) -> nat
    decreases n,
{
    if n == 0 {
        1
    } else {
        256 * byte_bound((n - 1) as nat)
    }
}

/// The number that the bytes `s` encode with the least significant byte first.
pub open spec fn le_value(s: Seq<u8>) -> nat
    decreases s.len(),
{
    if s.len() == 0 {
        0
    } else {
        s[0] as nat + 256 * le_value(s.drop_first())
    }
}

/// The number that the bytes `s` encode with the most significant byte first.
pub open spec fn be_value(s: Seq<u8>) -> nat
    decreases s.len(),
{
    if s.len() == 0 {
        0
    } else {
        be_value(s.drop_last()) * 256 + s.last() as nat
    }
}

pub proof fn lemma_le_value_bound(s: Seq<u8>)
    ensures
        le_value(s) < byte_bound(s.len()),
    decreases s.len(),
{
    if s.len() > 0 {
        lemma_le_value_bound(s.drop_first());
    }
}

pub proof fn lemma_be_value_bound(s: Seq<u8>)
    ensures
        be_value(s) < byte_bound(s.len()),
    decreases s.len(),
{
    if s.len() > 0 {
        lemma_be_value_bound(s.drop_last());
    }
}

/// The bounds of values of seven and eight bytes.
pub proof fn lemma_byte_bound_8()
    ensures
        byte_bound(7) == 0x100_0000_0000_0000,
        byte_bound(8) == 0x1_0000_0000_0000_0000,
{
    reveal_with_fuel(byte_bound, 9);
}

proof fn lemma_byte_bound_monotonic(i: nat, j: nat)
    requires
        i <= j,
    ensures
        byte_bound(i) <= byte_bound(j),
    decreases j,
{
    if i < j {
        lemma_byte_bound_monotonic(i, (j - 1) as nat);
    }
}

/// Reads eight bytes as an unsigned integer, least significant byte first.
pub fn read_u64_le(s: &[u8]) -> (v: u64)
    requires
        s@.len() == 8,
    ensures
        v as nat == le_value(s@),
{
    let mut v: u64 = 0;
    let mut i: usize = 8;
    while i > 0
        invariant
            i <= 8,
            s@.len() == 8,
            v as nat == le_value(s@.subrange(i as int, 8)),
        decreases i,
    {
        proof {
            lemma_le_value_bound(s@.subrange(i as int, 8));
            lemma_byte_bound_monotonic((8 - i) as nat, 7);
            lemma_byte_bound_8();
            assert(s@.subrange(i - 1, 8).drop_first() =~= s@.subrange(i as int, 8));
        }
        v = v * 256 + s[i - 1] as u64;
        i = i - 1;
    }
    assert(s@.subrange(0, 8) =~= s@);
    v
}

/// Reads eight bytes as an unsigned integer, most significant byte first.
pub fn read_u64_be(s: &[u8]) -> (v: u64)
    requires
        s@.len() == 8,
    ensures
        v as nat == be_value(s@),
{
    let mut v: u64 = 0;
    let mut i: usize = 0;
    while i < 8
        invariant
            i <= 8,
            s@.len() == 8,
            v as nat == be_value(s@.take(i as int)),
        decreases 8 - i,
    {
        proof {
            lemma_be_value_bound(s@.take(i as int));
            lemma_byte_bound_monotonic(i as nat, 7);
            lemma_byte_bound_8();
            assert(s@.take(i + 1).drop_last() =~= s@.take(i as int));
        }
        v = v * 256 + s[i] as u64;
        i = i + 1;
    }
    assert(s@.take(8) =~= s@);
    v
}

/// Copies the first 32 bytes of `s` into an array.
pub fn read_array32(s: &[u8]) -> (a: [u8; 32])
    requires
        s@.len() >= 32,
    ensures
        a@ == s@.take(32),
{
    let mut a = [0u8; 32];
    let mut i: usize = 0;
    while i < 32
        invariant
            i <= 32,
            s@.len() >= 32,
            forall|j: int| 0 <= j < i ==> a@[j] == s@[j],
        decreases 32 - i,
    {
        a[i] = s[i];
        i = i + 1;
    }
    assert(a@ =~= s@.take(32));
    a
}

/// Copies the first 64 bytes of `s` into an array.
pub fn read_array64(s: &[u8]) -> (a: [u8; 64])
    requires
        s@.len() >= 64,
    ensures
        a@ == s@.take(64),
{
    let mut a = [0u8; 64];
    let mut i: usize = 0;
    while i < 64
        invariant
            i <= 64,
            s@.len() >= 64,
            forall|j: int| 0 <= j < i ==> a@[j] == s@[j],
        decreases 64 - i,
    {
        a[i] = s[i];
        i = i + 1;
    }
    assert(a@ =~= s@.take(64));
    a
}

/// Copies the first 65 bytes of `s` into an array.
pub fn read_array65(s: &[u8]) -> (a: [u8; 65])
    requires
        s@.len() >= 65,
    ensures
        a@ == s@.take(65),
{
    let mut a = [0u8; 65];
    let mut i: usize = 0;
    while i < 65
        invariant
            i <= 65,
            s@.len() >= 65,
            forall|j: int| 0 <= j < i ==> a@[j] == s@[j],
        decreases 65 - i,
    {
        a[i] = s[i];
        i = i + 1;
    }
    assert(a@ =~= s@.take(65));
    a
}

/// Writes `src` into `dst` starting at `pos`, leaving the other bytes as they were.
pub fn write_bytes(dst: &mut [u8], pos: usize, src: &[u8])
    requires
        pos + src@.len() <= old(dst)@.len(),
    ensures
        final(dst)@ == old(dst)@.subrange(0, pos as int) + src@ + old(dst)@.subrange(
            pos + src@.len(),
            old(dst)@.len() as int,
        ),
{
    let mut i: usize = 0;
    while i < src.len()
        invariant
            i <= src@.len(),
            pos + src@.len() <= dst.len(),
            dst@.len() == old(dst)@.len(),
            forall|j: int| 0 <= j < pos ==> dst@[j] == old(dst)@[j],
            forall|j: int| 0 <= j < i ==> dst@[pos + j] == src@[j],
            forall|j: int| pos + i <= j < dst@.len() ==> dst@[j] == old(dst)@[j],
        decreases src@.len() - i,
    {
        dst[pos + i] = src[i];
        i = i + 1;
    }
    assert(dst@ =~= old(dst)@.subrange(0, pos as int) + src@ + old(dst)@.subrange(
        pos + src@.len(),
        old(dst)@.len() as int,
    ));
}

} // verus!
