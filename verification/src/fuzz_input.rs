//! Reading structured values from an arbitrary byte string, as the fuzzing
//! harnesses do: a cursor that yields zero past the end and never overflows.
use vstd::prelude::*;
use crate::core_types::address::Address;
use crate::core_types::hash::{le_value, u64_from_le};

verus! {

/// The byte at position `i`, or zero past the end.
pub open spec fn byte_at(data: Seq<u8>, i: int) -> u8 {
    if 0 <= i < data.len() {
        data[i]
    } else {
        0
    }
}

/// The cursor position after `k` reads from `start` (saturating).
pub open spec fn pos_after(start: usize, k: int) -> int {
    if start + k > usize::MAX {
        usize::MAX as int
    } else {
        start + k
    }
}

/// The `n` bytes read from `start`.
pub open spec fn bytes_from(data: Seq<u8>, start: usize, n: nat) -> Seq<u8> {
    Seq::new(n, |k: int| byte_at(data, pos_after(start, k)))
}

/// Read one byte and advance.
pub fn take(data: &[u8], i: &mut usize) -> (b: u8)
    ensures
        b == byte_at(data@, *old(i) as int),
        *final(i) as int == pos_after(*old(i), 1),
{
    let b: u8 = if *i < data.len() { data[*i] } else { 0 };
    *i = i.saturating_add(1);
    b
}

/// Read one byte and advance.
pub fn take_u8(data: &[u8], i: &mut usize) -> (b: u8)
    ensures
        b == byte_at(data@, *old(i) as int),
        *final(i) as int == pos_after(*old(i), 1),
{
    take(data, i)
}

/// Read `n` bytes and advance past them.
pub fn take_n(data: &[u8], i: &mut usize, n: usize) -> (out: Vec<u8>)
    ensures
        out@ == bytes_from(data@, *old(i), n as nat),
        *final(i) as int == pos_after(*old(i), n as int),
{
    let ghost start = *i;
    let mut out: Vec<u8> = Vec::new();
    let mut k: usize = 0;
    while k < n
        invariant
            0 <= k <= n,
            *i as int == pos_after(start, k as int),
            out@ == bytes_from(data@, start, k as nat),
        decreases n - k,
    {
        let b = take(data, i);
        out.push(b);
        k = k + 1;
        assert(out@ =~= bytes_from(data@, start, k as nat));
    }
    out
}

/// Read 32 bytes.
pub fn take_32(data: &[u8], i: &mut usize) -> (a: [u8; 32])
    ensures
        a@ == bytes_from(data@, *old(i), 32),
        *final(i) as int == pos_after(*old(i), 32),
{
    let v = take_n(data, i, 32);
    let mut a = [0u8; 32];
    let mut k: usize = 0;
    while k < 32
        invariant
            0 <= k <= 32,
            v@.len() == 32,
            a@.len() == 32,
            forall|j: int| 0 <= j < k ==> a@[j] == v@[j],
        decreases 32 - k,
    {
        a[k] = v[k];
        k = k + 1;
    }
    assert(a@ =~= v@);
    a
}

/// Read a little-endian `u64`.
pub fn take_u64(data: &[u8], i: &mut usize) -> (r: u64)
    ensures
        r == le_value(bytes_from(data@, *old(i), 8)),
        *final(i) as int == pos_after(*old(i), 8),
{
    let v = take_n(data, i, 8);
    u64_from_le(v.as_slice())
}

/// Read a little-endian `u32`.
pub fn take_u32(data: &[u8], i: &mut usize) -> (r: u32)
    ensures
        r == le_value(bytes_from(data@, *old(i), 4)),
        *final(i) as int == pos_after(*old(i), 4),
{
    let v = take_n(data, i, 4);
    let ghost s = v@;
    proof {
        reveal_with_fuel(le_value, 5);
        assert(s.drop_first().drop_first().drop_first().drop_first() =~= Seq::<u8>::empty());
    }
    let b0: u32 = v[0] as u32;
    let b1: u32 = v[1] as u32;
    let b2: u32 = v[2] as u32;
    let b3: u32 = v[3] as u32;
    b0 + 256 * (b1 + 256 * (b2 + 256 * b3))
}

/// A test producer address: the byte first, the byte xor `0xA5` last.
pub fn producer_from(byte: u8) -> (a: Address)
    ensures
        a.0@ == Seq::new(32, |k: int| if k == 0 { byte } else if k == 31 { byte ^ 0xA5u8 } else { 0u8 }),
{
    let mut raw = [0u8; 32];
    raw[0] = byte;
    raw[31] = byte ^ 0xA5;
    assert(raw@ =~= Seq::new(32, |k: int| if k == 0 { byte } else if k == 31 { byte ^ 0xA5u8 } else { 0u8 }));
    Address(raw)
}

} // verus!
