//! The frame around a DUMP payload: the serialized value, two bytes of
//! format version (0, 9), and an 8-byte little-endian checksum of all that
//! comes before it. RESTORE accepts a payload only when the checksum holds.
use vstd::arithmetic::div_mod::lemma_add_mod_noop;
use vstd::prelude::*;

verus! {

/// 2^64.
pub open spec fn word_range() -> nat {
    0x1_0000_0000_0000_0000
}

/// The sum of each byte times its position counted from 1.
pub open spec fn weighted_sum(d: Seq<u8>) -> nat
    decreases d.len(),
{
    if d.len() == 0 {
        0
    } else {
        weighted_sum(d.drop_last()) + (d.last() as nat) * d.len()
    }
}

/// The checksum of a DUMP frame: the weighted byte sum, modulo 2^64.
pub open spec fn checksum_spec(d: Seq<u8>) -> u64 {
    (weighted_sum(d) % word_range()) as u64
}

/// 256 to the power `n`.
pub open spec fn pow256(n: nat) -> nat
    decreases n,
{
    if n == 0 {
        1
    } else {
        256 * pow256((n - 1) as nat)
    }
}

/// The `n` low bytes of `v`, least significant first.
pub open spec fn le_bytes(v: nat, n: nat) -> Seq<u8>
    decreases n,
{
    if n == 0 {
        Seq::empty()
    } else {
        seq![(v % 256) as u8] + le_bytes(v / 256, (n - 1) as nat)
    }
}

/// The number that bytes stand for, least significant first.
pub open spec fn le_value(b: Seq<u8>) -> nat
    decreases b.len(),
{
    if b.len() == 0 {
        0
    } else {
        b[0] as nat + 256 * le_value(b.drop_first())
    }
}

/// The version bytes of a DUMP frame.
pub open spec fn dump_version() -> Seq<u8> {
    seq![0u8, 9u8]
}

/// The DUMP frame around `payload`.
pub open spec fn dump_frame_spec(payload: Seq<u8>) -> Seq<u8> {
    let body = payload + dump_version();
    body + le_bytes(checksum_spec(body) as nat, 8)
}

/// Whether `d` ends in an 8-byte checksum of what comes before it (and is
/// at least as long as version and checksum together).
pub open spec fn frame_ok(d: Seq<u8>) -> bool {
    d.len() >= 10 && le_value(d.subrange(d.len() - 8, d.len() as int)) == checksum_spec(d.subrange(0, d.len() - 8))
}

/// The serialized value inside a frame: all but version and checksum.
pub open spec fn frame_payload(d: Seq<u8>) -> Seq<u8> {
    d.subrange(0, d.len() - 10)
}

proof fn lemma_le_roundtrip(v: nat, n: nat)
    requires
        v < pow256(n),
    ensures
        le_bytes(v, n).len() == n,
        le_value(le_bytes(v, n)) == v,
    decreases n,
{
    if n > 0 {
        let p = pow256((n - 1) as nat);
        assert(v / 256 < p) by (nonlinear_arith)
            requires
                v < 256 * p,
        ;
        lemma_le_roundtrip(v / 256, (n - 1) as nat);
        let b = le_bytes(v, n);
        assert(b.drop_first() =~= le_bytes(v / 256, (n - 1) as nat));
        assert(v % 256 + 256 * (v / 256) == v) by (nonlinear_arith);
    }
}

/// What RESTORE reads back of a frame that DUMP wrote: the checksum holds,
/// and the payload is the one that was framed.
pub proof fn law_frame_roundtrip(payload: Seq<u8>)
    ensures
        frame_ok(dump_frame_spec(payload)),
        frame_payload(dump_frame_spec(payload)) == payload,
{
    let body = payload + dump_version();
    let c = checksum_spec(body);
    assert(pow256(8) == word_range()) by {
        reveal_with_fuel(pow256, 9);
    }
    lemma_le_roundtrip(c as nat, 8);
    let d = dump_frame_spec(payload);
    assert(d.subrange(0, d.len() - 8) =~= body);
    assert(d.subrange(d.len() - 8, d.len() as int) =~= le_bytes(c as nat, 8));
    assert(frame_payload(d) =~= payload);
}

/// The checksum of the first `n` bytes of `data`.
fn checksum_upto(data: &[u8], n: usize) -> (r: u64)
    requires
        n <= data@.len(),
    ensures
        r == checksum_spec(data@.subrange(0, n as int)),
{
    let mut c: u64 = 0;
    let mut i: usize = 0;
    proof {
        assert(data@.subrange(0, 0) =~= Seq::<u8>::empty());
    }
    while i < n
        invariant
            i <= n <= data@.len(),
            c == checksum_spec(data@.subrange(0, i as int)),
        decreases n - i,
    {
        let ghost before = data@.subrange(0, i as int);
        let ghost after = data@.subrange(0, i + 1);
        proof {
            assert(after.drop_last() =~= before);
        }
        let w = (data[i] as u64).wrapping_mul(i as u64 + 1);
        let next = c.wrapping_add(w);
        proof {
            let y: int = data@[i as int] * (i + 1);
            assert(weighted_sum(after) == weighted_sum(before) + y);
            assert(w == y % (word_range() as int));
            lemma_add_mod_noop(weighted_sum(before) as int, y, word_range() as int);
            assert(next == (c + w) % (word_range() as int));
        }
        c = next;
        i = i + 1;
    }
    c
}

/// The checksum of a DUMP frame's bytes.
pub fn calculate_checksum(data: &[u8]) -> (r: u64)
    ensures
        r == checksum_spec(data@),
{
    proof {
        assert(data@.subrange(0, data@.len() as int) =~= data@);
    }
    checksum_upto(data, data.len())
}

/// The number the 8 bytes of `data` from `at` on stand for, least
/// significant first.
fn le_u64_at(data: &[u8], at: usize) -> (r: u64)
    requires
        at + 8 <= data@.len(),
    ensures
        r as nat == le_value(data@.subrange(at as int, at + 8)),
{
    let n = data.len();
    let mut acc: u64 = 0;
    let mut k: usize = 8;
    proof {
        assert(data@.subrange(at + 8, at + 8) =~= Seq::<u8>::empty());
    }
    while k > 0
        invariant
            k <= 8,
            at + 8 <= data@.len(),
            n == data@.len(),
            acc as nat == le_value(data@.subrange(at + k, at + 8)),
            acc < pow256((8 - k) as nat),
        decreases k,
    {
        let ghost tail = data@.subrange(at + k, at + 8);
        let ghost ext = data@.subrange(at + k - 1, at + 8);
        proof {
            assert(ext.drop_first() =~= tail);
            assert(ext[0] == data@[at + k - 1]);
            assert(pow256((8 - k) as nat) <= pow256(7)) by {
                lemma_pow256_monotone((8 - k) as nat, 7);
            }
            assert(pow256(7) == 0x100_0000_0000_0000) by {
                reveal_with_fuel(pow256, 8);
            }
            assert(acc * 256 + 255 < 0x1_0000_0000_0000_0000) by (nonlinear_arith)
                requires
                    acc < 0x100_0000_0000_0000,
            ;
            assert(acc * 256 + data@[at + k - 1] < pow256((8 - k + 1) as nat)) by (nonlinear_arith)
                requires
                    acc < pow256((8 - k) as nat),
                    pow256((8 - k + 1) as nat) == 256 * pow256((8 - k) as nat),
                    data@[at + k - 1] < 256,
            ;
        }
        acc = acc * 256 + data[at + k - 1] as u64;
        k = k - 1;
    }
    proof {
        assert(data@.subrange(at as int, at + 8) =~= data@.subrange(at + 0, at + 8));
    }
    acc
}

proof fn lemma_pow256_monotone(a: nat, b: nat)
    requires
        a <= b,
    ensures
        pow256(a) <= pow256(b),
    decreases b,
{
    if a < b {
        lemma_pow256_monotone(a, (b - 1) as nat);
    }
}

/// Whether `data` ends in a checksum of what comes before it.
pub fn verify_checksum(data: &[u8]) -> (r: bool)
    ensures
        r == frame_ok(data@),
{
    if data.len() < 10 {
        return false;
    }
    let stored = le_u64_at(data, data.len() - 8);
    let computed = checksum_upto(data, data.len() - 8);
    stored == computed
}

/// The DUMP frame around `payload`.
pub fn dump_frame(payload: &[u8]) -> (r: Vec<u8>)
    ensures
        r@ == dump_frame_spec(payload@),
{
    let mut out: Vec<u8> = Vec::new();
    let mut i: usize = 0;
    while i < payload.len()
        invariant
            i <= payload@.len(),
            out@ == payload@.subrange(0, i as int),
        decreases payload.len() - i,
    {
        out.push(payload[i]);
        i = i + 1;
        proof {
            assert(out@ =~= payload@.subrange(0, i as int));
        }
    }
    out.push(0);
    out.push(9);
    proof {
        assert(out@ =~= payload@ + dump_version());
    }
    let ghost body = out@;
    let c = checksum_upto(out.as_slice(), out.len());
    proof {
        assert(body.subrange(0, body.len() as int) =~= body);
    }
    let mut v: u64 = c;
    let mut k: usize = 0;
    while k < 8
        invariant
            k <= 8,
            out@ + le_bytes(v as nat, (8 - k) as nat) == body + le_bytes(c as nat, 8),
        decreases 8 - k,
    {
        let ghost rest = le_bytes(v as nat, (8 - k) as nat);
        proof {
            assert(rest == seq![(v % 256) as u8] + le_bytes(v as nat / 256, (8 - k - 1) as nat));
        }
        out.push((v % 256) as u8);
        v = v / 256;
        k = k + 1;
        proof {
            assert(out@ + le_bytes(v as nat, (8 - k) as nat) =~= body + le_bytes(c as nat, 8));
        }
    }
    proof {
        assert(le_bytes(v as nat, 0) =~= Seq::<u8>::empty());
        assert(out@ =~= body + le_bytes(c as nat, 8));
    }
    out
}

} // verus!
