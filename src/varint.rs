//! Decoding continuation-encoded integers.

use vstd::prelude::*;
use crate::wire::varint_bytes;

verus! {

pub open spec fn pow128(k: nat) -> nat
    decreases k,
{
    if k == 0 {
        1
    } else {
        128 * pow128((k - 1) as nat)
    }
}

/// Reads a continuation-encoded integer whose byte `k` sits at `pos + k`,
/// with `acc` the value of the bytes before it. At most five bytes are read;
/// the result is the value read and the position after it.
pub open spec fn varint_from(data: Seq<u8>, pos: int, k: nat, acc: nat) -> Option<(nat, int)>
    decreases 5 - k,
{
    if k >= 5 || pos < 0 || pos + k >= data.len() {
        None
    } else {
        let b = data[pos + k];
        let acc2 = acc + (b % 128) as nat * pow128(k);
        if b < 128 {
            Some((acc2, pos + k + 1))
        } else {
            varint_from(data, pos, k + 1, acc2)
        }
    }
}

/// The 32-bit value of the continuation-encoded integer at `pos` (bits past
/// the 32nd dropped), and the position after it.
pub open spec fn varint_at(data: Seq<u8>, pos: int) -> Option<(u32, int)> {
    match varint_from(data, pos, 0, 0) {
        Some((v, next)) => Some(((v % 0x1_0000_0000) as u32, next)),
        None => None,
    }
}

/// Decodes the continuation-encoded integer at `pos`, as `varint_at` states.
pub fn read_varint(data: &Vec<u8>, pos: usize) -> (r: Option<(u32, usize)>)
    ensures
        match r {
            Some((v, next)) => varint_at(data@, pos as int) == Some((v, next as int)) && next <= data@.len(),
            None => varint_at(data@, pos as int).is_none(),
        },
{
    let mut acc: u64 = 0;
    let mut mult: u64 = 1;
    let mut k: usize = 0;
    while k < 5
        invariant
            k <= 5,
            mult == pow128(k as nat),
            acc < pow128(k as nat),
            varint_from(data@, pos as int, 0, 0) == varint_from(data@, pos as int, k as nat, acc as nat),
        decreases 5 - k,
    {
        proof {
            reveal_with_fuel(pow128, 6);
        }
        if pos >= data.len() || data.len() - pos <= k {
            return None;
        }
        let b = data[pos + k];
        proof {
            assert(acc + (b % 128) as nat * pow128(k as nat) < 128 * pow128(k as nat)) by (nonlinear_arith)
                requires b % 128 < 128, acc < pow128(k as nat);
            assert(pow128((k + 1) as nat) == 128 * pow128(k as nat));
            assert(pow128(k as nat) <= pow128(4));
        }
        acc = acc + (b % 128) as u64 * mult;
        if b < 128 {
            return Some(((acc % 0x1_0000_0000) as u32, pos + k + 1));
        }
        mult = mult * 128;
        k = k + 1;
    }
    None
}

pub proof fn lemma_pow128_positive(k: nat)
    ensures
        pow128(k) > 0,
    decreases k,
{
    if k > 0 {
        lemma_pow128_positive((k - 1) as nat);
    }
}

proof fn lemma_varint_from_encoding(pre: Seq<u8>, w: nat, rest: Seq<u8>, acc: nat)
    requires
        pre.len() < 5,
        w < pow128((5 - pre.len()) as nat),
    ensures
        varint_from(pre + varint_bytes(w) + rest, 0, pre.len(), acc) == Some(
            (acc + w * pow128(pre.len()), (pre.len() + varint_bytes(w).len()) as int),
        ),
    decreases w,
{
    let k = pre.len();
    let data = pre + varint_bytes(w) + rest;
    lemma_pow128_positive(k);
    assert(data[k as int] == varint_bytes(w)[0]);
    if w < 128 {
        assert(varint_bytes(w) == seq![w as u8]);
        assert((w as u8) % 128 == w);
    } else {
        let b0 = (w % 128 + 128) as u8;
        assert(varint_bytes(w) == seq![b0] + varint_bytes(w / 128));
        let pre2 = pre.push(b0);
        assert(pre2 + varint_bytes(w / 128) + rest =~= data);
        assert(b0 % 128 == w % 128);
        assert(pow128((5 - k) as nat) == 128 * pow128((5 - k - 1) as nat));
        assert(w / 128 < pow128((5 - k - 1) as nat)) by (nonlinear_arith)
            requires w < 128 * pow128((5 - k - 1) as nat);
        if k + 1 >= 5 {
            assert(pow128(0) == 1);
        }
        lemma_varint_from_encoding(pre2, w / 128, rest, acc + (w % 128) * pow128(k));
        assert(pow128(k + 1) == 128 * pow128(k));
        assert((w % 128) * pow128(k) + (w / 128) * (128 * pow128(k)) == w * pow128(k)) by (nonlinear_arith)
            requires w == 128 * (w / 128) + w % 128;
    }
}

/// Decoding the encoding of any 32-bit value gives the value back, and reads
/// exactly the bytes of the encoding, whatever follows them.
pub proof fn lemma_varint_round_trip(v: u32, rest: Seq<u8>)
    ensures
        varint_bytes(v as nat).len() <= 5,
        varint_at(varint_bytes(v as nat) + rest, 0) == Some((v, varint_bytes(v as nat).len() as int)),
{
    reveal_with_fuel(pow128, 6);
    let empty = Seq::<u8>::empty();
    assert(empty + varint_bytes(v as nat) + rest =~= varint_bytes(v as nat) + rest);
    lemma_varint_from_encoding(empty, v as nat, rest, 0);
    lemma_varint_len(v as nat, 5);
    assert(pow128(0) == 1);
    assert((v as nat) * pow128(0) == v);
    assert((v as nat) % 0x1_0000_0000 == v);
}

/// Bytes before the data shift where a value is read, not what is read.
pub proof fn lemma_varint_shift(pre: Seq<u8>, d: Seq<u8>, q: int, k: nat, acc: nat)
    requires
        q >= 0,
    ensures
        varint_from(pre + d, pre.len() + q, k, acc) == match varint_from(d, q, k, acc) {
            Some((v, n)) => Some((v, n + pre.len())),
            None => None,
        },
    decreases 5 - k,
{
    let data = pre + d;
    if k < 5 && q + k < d.len() {
        assert(data[pre.len() + q + k] == d[q + k]);
        lemma_varint_shift(pre, d, q, k + 1, acc + (d[q + k] % 128) as nat * pow128(k));
    }
}

pub proof fn lemma_varint_advances(d: Seq<u8>, q: int, k: nat, acc: nat)
    requires
        q >= 0,
    ensures
        match varint_from(d, q, k, acc) {
            Some((v, n)) => n > q,
            None => true,
        },
    decreases 5 - k,
{
    if k < 5 && q + k < d.len() {
        lemma_varint_advances(d, q, k + 1, acc + (d[q + k] % 128) as nat * pow128(k));
    }
}

proof fn lemma_varint_len(w: nat, n: nat)
    requires
        n >= 1,
        w < pow128(n),
    ensures
        varint_bytes(w).len() <= n,
    decreases w,
{
    if w >= 128 {
        assert(pow128(n) == 128 * pow128((n - 1) as nat));
        if n == 1 {
            assert(pow128(0) == 1);
        }
        assert(w / 128 < pow128((n - 1) as nat)) by (nonlinear_arith)
            requires w < 128 * pow128((n - 1) as nat);
        lemma_varint_len(w / 128, (n - 1) as nat);
    }
}

} // verus!
