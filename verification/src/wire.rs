//! Frames on a byte stream: each frame is its length as 8 little-endian
//! bytes, followed by that many bytes.
use vstd::prelude::*;

verus! {

/// 256 to the power `n`.
pub open spec fn pow256(n: nat) -> nat
    decreases n,
{
    if n == 0 {
        1
    } else {
        256 * pow256((n - 1) as nat)
    }
}

/// The number that the bytes `b` spell, least significant byte first.
pub open spec fn le_value(b: Seq<u8>) -> nat
    decreases b.len(),
{
    if b.len() == 0 {
        0
    } else {
        (b[0] as nat) + 256 * le_value(b.drop_first())
    }
}

/// The `n` bytes that spell `x`, least significant byte first (the part of
/// `x` from `256^n` up is dropped).
pub open spec fn le_bytes(x: nat, n: nat) -> Seq<u8>
    decreases n,
{
    if n == 0 {
        Seq::empty()
    } else {
        seq![(x % 256) as u8] + le_bytes(x / 256, (n - 1) as nat)
    }
}

/// The frame that carries `payload`.
pub open spec fn framed(payload: Seq<u8>) -> Seq<u8> {
    le_bytes(payload.len(), 8) + payload
}

/// `n` bytes spell a number below `256^n`.
pub proof fn lemma_le_value_bound(b: Seq<u8>)
    ensures
        le_value(b) < pow256(b.len()),
    decreases b.len(),
{
    if b.len() > 0 {
        lemma_le_value_bound(b.drop_first());
    }
}

/// `le_bytes(x, n)` has `n` bytes.
pub proof fn lemma_le_bytes_len(x: nat, n: nat)
    ensures
        le_bytes(x, n).len() == n,
    decreases n,
{
    if n > 0 {
        lemma_le_bytes_len(x / 256, (n - 1) as nat);
    }
}

/// Spelling a number below `256^n` in `n` bytes and reading it back gives
/// the number.
pub proof fn law_le_round_trip(x: nat, n: nat)
    requires
        x < pow256(n),
    ensures
        le_value(le_bytes(x, n)) == x,
    decreases n,
{
    if n > 0 {
        let rest = le_bytes(x / 256, (n - 1) as nat);
        law_le_round_trip(x / 256, (n - 1) as nat);
        let b = le_bytes(x, n);
        assert(b.drop_first() =~= rest);
    }
}

/// `256^8` is the number of `u64` values.
pub proof fn lemma_pow256_8()
    ensures
        pow256(8) == 0x1_0000_0000_0000_0000,
{
    reveal_with_fuel(pow256, 9);
}

/// The 8 bytes that give a frame's length `len`.
pub fn length_header(len: u64) -> (r: Vec<u8>)
    ensures
        r@ == le_bytes(len as nat, 8),
{
    let mut out: Vec<u8> = Vec::new();
    let mut v: u64 = len;
    let mut i: u64 = 0;
    proof {
        assert(Seq::<u8>::empty() + le_bytes(len as nat, 8) =~= le_bytes(len as nat, 8));
    }
    while i < 8
        invariant
            i <= 8,
            out@ + le_bytes(v as nat, (8 - i) as nat) == le_bytes(len as nat, 8),
        decreases 8 - i,
    {
        let ghost rest = le_bytes((v / 256) as nat, (8 - i - 1) as nat);
        proof {
            assert(le_bytes(v as nat, (8 - i) as nat) == seq![(v % 256) as u8] + rest);
            assert(out@ + le_bytes(v as nat, (8 - i) as nat) =~= out@.push((v % 256) as u8)
                + rest);
        }
        out.push((v % 256) as u8);
        v = v / 256;
        i = i + 1;
    }
    proof {
        assert(out@ + Seq::<u8>::empty() =~= out@);
    }
    out
}

/// The length that the 8 bytes `header` give.
pub fn header_length(header: [u8; 8]) -> (r: u64)
    ensures
        r == le_value(header@),
{
    let ghost h = header@;
    let mut acc: u64 = 0;
    let mut k: usize = 8;
    proof {
        assert(h.subrange(8, 8) =~= Seq::<u8>::empty());
        lemma_pow256_8();
    }
    while k > 0
        invariant
            k <= 8,
            h == header@,
            h.len() == 8,
            acc == le_value(h.subrange(k as int, 8)),
            pow256(8) == 0x1_0000_0000_0000_0000,
        decreases k,
    {
        let ghost tail = h.subrange(k as int, 8);
        let ghost next = h.subrange(k - 1, 8);
        proof {
            assert(next.drop_first() =~= tail);
            lemma_le_value_bound(tail);
            lemma_pow_monotone((8 - k) as nat, 7);
            assert(acc < pow256(7));
            assert(256 * pow256(7) == pow256(8));
        }
        acc = header[k - 1] as u64 + 256 * acc;
        k = k - 1;
    }
    proof {
        assert(h.subrange(0, 8) =~= h);
    }
    acc
}

/// `256^n` grows with `n`.
pub proof fn lemma_pow_monotone(a: nat, b: nat)
    requires
        a <= b,
    ensures
        pow256(a) <= pow256(b),
    decreases b,
{
    if a < b {
        lemma_pow_monotone(a, (b - 1) as nat);
    }
}

/// The frame that carries `payload`: its length, then its bytes.
pub fn frame(payload: &[u8]) -> (r: Vec<u8>)
    ensures
        r@ == framed(payload@),
{
    let mut out = length_header(payload.len() as u64);
    let ghost head = out@;
    let mut i: usize = 0;
    while i < payload.len()
        invariant
            i <= payload.len(),
            out@ == head + payload@.subrange(0, i as int),
        decreases payload.len() - i,
    {
        out.push(payload[i]);
        i = i + 1;
        assert(out@ =~= head + payload@.subrange(0, i as int));
    }
    assert(payload@.subrange(0, payload.len() as int) =~= payload@);
    out
}

/// A frame's header read back gives the length of the bytes it carries.
pub proof fn law_frame_header_gives_length(payload: Seq<u8>)
    requires
        payload.len() <= u64::MAX,
    ensures
        framed(payload).subrange(0, 8) == le_bytes(payload.len(), 8),
        le_value(framed(payload).subrange(0, 8)) == payload.len(),
        framed(payload).subrange(8, framed(payload).len() as int) == payload,
{
    lemma_le_bytes_len(payload.len(), 8);
    lemma_pow256_8();
    law_le_round_trip(payload.len(), 8);
    assert(framed(payload).subrange(0, 8) =~= le_bytes(payload.len(), 8));
    assert(framed(payload).subrange(8, framed(payload).len() as int) =~= payload);
}

} // verus!
