//! Where decoding an encoded proof traps. The decoder reads the proof's
//! header (trace shape, field modulus, proof options, constraint count) and
//! then its length-prefixed sections; a few malformed values make it panic
//! rather than return an error. This module walks the same layout and says
//! whether the walk reaches one of those values, so that the decoder is
//! only ever called where it returns.

use vstd::prelude::*;

verus! {

/// How far a read gets: to the next position, or it stops with a decoding
/// error, or it traps, or it meets a byte vector declared longer than the
/// bytes that remain. The decoder reserves a vector's declared length before
/// it reads the bytes, so such a vector either exhausts the memory or ends
/// in an `unexpected EOF` error.
pub enum Read {
    At(usize),
    Stops,
    Traps,
    Truncated,
}

/// Reading `n` bytes at `p`: the reader's bounds check adds `p + n` in
/// `usize`, which traps when it overflows; past the end it is an error.
pub open spec fn read_bytes(b: Seq<u8>, p: usize, n: int) -> Read {
    if p + n > usize::MAX {
        Read::Traps
    } else if p + n > b.len() {
        Read::Stops
    } else {
        Read::At((p + n) as usize)
    }
}

/// Reads `n` bytes at `p`.
pub fn read_bytes_at(b: &[u8], p: usize, n: usize) -> (r: Read)
    requires
        p <= b@.len(),
    ensures
        r matches Read::At(q) ==> q <= b@.len(),
        r == read_bytes(b@, p, n as int),
{
    if n > usize::MAX - p {
        Read::Traps
    } else if p + n > b.len() {
        Read::Stops
    } else {
        Read::At(p + n)
    }
}

/// A little-endian `u16` at `p`.
pub open spec fn u16_at(b: Seq<u8>, p: int) -> int {
    b[p] + 256 * b[p + 1]
}

/// A little-endian `u32` at `p`.
pub open spec fn u32_at(b: Seq<u8>, p: int) -> int {
    b[p] + 256 * b[p + 1] + 65536 * b[p + 2] + 16777216 * b[p + 3]
}

/// The little-endian value of the `k` bytes at `p`.
pub open spec fn le_value(b: Seq<u8>, p: int, k: nat) -> nat
    decreases k,
{
    if k == 0 {
        0
    } else {
        b[p] as nat + 256 * le_value(b, p + 1, (k - 1) as nat)
    }
}

/// `256^k`.
pub open spec fn pow256(k: nat) -> nat
    decreases k,
{
    if k == 0 {
        1
    } else {
        256 * pow256((k - 1) as nat)
    }
}

/// `2^k`.
pub open spec fn pow2_nat(k: nat) -> nat
    decreases k,
{
    if k == 0 {
        1
    } else {
        2 * pow2_nat((k - 1) as nat)
    }
}

/// The number of trailing zero bits of a nonzero byte.
pub open spec fn trailing_zeros(x: u8) -> nat
    decreases x,
{
    if x == 0 || x % 2 == 1 {
        0
    } else {
        1 + trailing_zeros(x / 2)
    }
}

/// The length in bytes of a variable-length integer whose first byte is
/// `first`: one more than the first byte's trailing zero bits, and nine
/// when the first byte is zero.
pub open spec fn vint_len(first: u8) -> nat {
    if first == 0 {
        9
    } else {
        trailing_zeros(first) + 1
    }
}

/// The value of the variable-length integer at `p`.
pub open spec fn vint_value(b: Seq<u8>, p: int) -> nat {
    let len = vint_len(b[p]);
    if len == 9 {
        le_value(b, p + 1, 8)
    } else {
        le_value(b, p, len) / pow2_nat(len)
    }
}

/// Reads a variable-length integer as `ByteReader::read_usize` does: peek
/// at the first byte, read the rest, and reject values above `usize::MAX`.
pub open spec fn read_vint(b: Seq<u8>, p: usize) -> Read {
    match read_bytes(b, p, 1) {
        Read::At(_) => {
            let len = vint_len(b[p as int]);
            let r = if len == 9 {
                read_bytes(b, (p + 1) as usize, 8)
            } else {
                read_bytes(b, p, len as int)
            };
            match r {
                Read::At(q) => if vint_value(b, p as int) > usize::MAX {
                    Read::Stops
                } else {
                    Read::At(q)
                },
                other => other,
            }
        },
        other => other,
    }
}

/// Reads a byte vector: its length as a variable-length integer, then that
/// many bytes one by one into a vector allocated up front, whose capacity
/// traps above `isize::MAX` bytes; a length beyond the bytes that remain
/// is a truncated vector.
pub open spec fn read_byte_vec(b: Seq<u8>, p: usize) -> Read {
    match read_vint(b, p) {
        Read::At(q) => {
            let n = vint_value(b, p as int);
            if n > isize::MAX {
                Read::Traps
            } else if q + n > b.len() {
                Read::Truncated
            } else {
                Read::At((q + n) as usize)
            }
        },
        other => other,
    }
}

/// Reads a `u16` length and then that many bytes.
pub open spec fn read_u16_sized(b: Seq<u8>, p: usize) -> Read {
    match read_bytes(b, p, 2) {
        Read::At(q) => read_bytes(b, q, u16_at(b, p as int)),
        other => other,
    }
}

/// Reads the trace shape at the start of the proof: main and auxiliary
/// widths, the auxiliary random-element count, the trace length as a power
/// of two, and the trace metadata. `2^k` traps for `k` at or above the
/// word size (in builds with overflow checks at once, otherwise at the
/// minimum-length check once the metadata is read), and a nonzero random
/// element count without an auxiliary segment traps once the metadata is
/// read.
pub open spec fn read_trace_info(b: Seq<u8>) -> Read {
    if b.len() < 1 || b[0] == 0 || b.len() < 2 || b[0] + b[1] >= 255 || b.len() < 3 || (b[1]
        != 0 && b[2] == 0) || b.len() < 4 || b[3] < 3 {
        Read::Stops
    } else if b[3] >= usize::BITS {
        Read::Traps
    } else {
        match read_u16_sized(b, 4) {
            Read::At(q) => if b[1] == 0 && b[2] != 0 {
                Read::Traps
            } else {
                Read::At(q)
            },
            other => other,
        }
    }
}

/// The trace shape traps only on a trace-length exponent at or above the
/// word size, or on auxiliary random elements without an auxiliary segment;
/// the shape of a single-segment trace of length `2^k`, `3 <= k` below the
/// word size, is read without a trap whatever its width and metadata.
pub proof fn lemma_trace_info_traps_only_on_malformed_shape(b: Seq<u8>)
    ensures
        read_trace_info(b) is Traps ==> b.len() >= 4 && (b[3] >= usize::BITS || (b[1] == 0 && b[2]
            != 0)),
        b.len() >= 4 && 1 <= b[0] < 255 && b[1] == 0 && b[2] == 0 && 3 <= b[3] < usize::BITS
            ==> !(read_trace_info(b) is Traps),
{
}

/// Reads the field modulus: a nonzero byte count, then the bytes.
pub open spec fn read_field_modulus(b: Seq<u8>, p: usize) -> Read {
    match read_bytes(b, p, 1) {
        Read::At(q) => if b[p as int] == 0 {
            Read::Stops
        } else {
            read_bytes(b, q, b[p as int] as int)
        },
        other => other,
    }
}

/// A power of two up to 256.
pub open spec fn is_small_power_of_two(x: int) -> bool {
    x == 1 || x == 2 || x == 4 || x == 8 || x == 16 || x == 32 || x == 64 || x == 128 || x == 256
}

/// The option values that `ProofOptions::new` accepts: queries, blowup
/// factor, grinding factor, FRI folding factor and FRI remainder degree.
pub open spec fn options_accepted(b: Seq<u8>, p: int) -> bool {
    &&& b[p] > 0
    &&& is_small_power_of_two(b[p + 1] as int) && 2 <= b[p + 1] <= 128
    &&& b[p + 2] <= 32
    &&& is_small_power_of_two(b[p + 4] as int) && 2 <= b[p + 4] <= 16
    &&& is_small_power_of_two(b[p + 5] + 1)
}

/// Reads the proof options: eight bytes, of which the field extension
/// (1 to 3) and the two batching methods (0 to 2) must be known values;
/// `ProofOptions::new` traps on values it does not accept; then the
/// partition count (1 to 16, else a trap) and the hash rate (nonzero, else
/// a trap).
pub open spec fn read_options(b: Seq<u8>, p: usize) -> Read {
    match read_bytes(b, p, 8) {
        Read::At(q) => if !(1 <= b[p + 3] <= 3) || b[p + 6] > 2 || b[p + 7] > 2 {
            Read::Stops
        } else if !options_accepted(b, p as int) {
            Read::Traps
        } else {
            match read_bytes(b, q, 2) {
                Read::At(r) => if !(1 <= b[q as int] <= 16) || b[q + 1] == 0 {
                    Read::Traps
                } else {
                    Read::At(r)
                },
                other => other,
            }
        },
        other => other,
    }
}

/// The proof options trap only on values that `ProofOptions::new` or the
/// partition options refuse: no queries, a blowup factor that is not a
/// power of two from 2 to 128, a grinding factor above 32, a FRI folding
/// factor other than 2, 4, 8 or 16, a remainder degree not one less than a
/// power of two, a partition count outside 1 to 16, or a zero hash rate.
/// The options the example prover uses are read without a trap.
pub proof fn lemma_options_trap_only_on_refused_values(b: Seq<u8>, p: usize)
    requires
        p <= b.len() <= isize::MAX,
    ensures
        read_options(b, p) is Traps ==> p + 8 <= b.len() && {
            ||| b[p as int] == 0
            ||| !(b[p + 1] == 2 || b[p + 1] == 4 || b[p + 1] == 8 || b[p + 1] == 16 || b[p + 1] == 32
                || b[p + 1] == 64 || b[p + 1] == 128)
            ||| b[p + 2] > 32
            ||| !(b[p + 4] == 2 || b[p + 4] == 4 || b[p + 4] == 8 || b[p + 4] == 16)
            ||| !(b[p + 5] == 0 || b[p + 5] == 1 || b[p + 5] == 3 || b[p + 5] == 7 || b[p + 5] == 15
                || b[p + 5] == 31 || b[p + 5] == 63 || b[p + 5] == 127 || b[p + 5] == 255)
            ||| (p + 10 <= b.len() && (b[p + 8] == 0 || b[p + 8] > 16 || b[p + 9] == 0))
        },
        p + 10 <= b.len() && b.subrange(p as int, p + 10) == seq![32u8, 8, 0, 1, 8, 31, 0, 0, 1, 1]
            ==> read_options(b, p) == Read::At((p + 10) as usize),
{
    if p + 10 <= b.len() && b.subrange(p as int, p + 10) == seq![32u8, 8, 0, 1, 8, 31, 0, 0, 1, 1] {
        assert(b[p as int] == b.subrange(p as int, p + 10)[0]);
        assert(b[p + 1] == b.subrange(p as int, p + 10)[1]);
        assert(b[p + 2] == b.subrange(p as int, p + 10)[2]);
        assert(b[p + 3] == b.subrange(p as int, p + 10)[3]);
        assert(b[p + 4] == b.subrange(p as int, p + 10)[4]);
        assert(b[p + 5] == b.subrange(p as int, p + 10)[5]);
        assert(b[p + 6] == b.subrange(p as int, p + 10)[6]);
        assert(b[p + 7] == b.subrange(p as int, p + 10)[7]);
        assert(b[p + 8] == b.subrange(p as int, p + 10)[8]);
        assert(b[p + 9] == b.subrange(p as int, p + 10)[9]);
    }
}

/// A byte vector traps only when its declared length exceeds
/// `isize::MAX`; one whose declared length fits in the bytes that remain is
/// read in full.
pub proof fn lemma_byte_vec_traps_only_on_capacity_overflow(b: Seq<u8>, p: usize)
    requires
        p <= b.len() <= isize::MAX,
    ensures
        read_byte_vec(b, p) is Traps ==> p < b.len() && vint_value(b, p as int) > isize::MAX,
        read_vint(b, p) matches Read::At(q) ==> (q + vint_value(b, p as int) <= b.len()
            ==> read_byte_vec(b, p) == Read::At((q + vint_value(b, p as int)) as usize)),
{
    assert(isize::MAX + 10 <= usize::MAX);
    assert(vint_len(b[p as int]) <= 9) by {
        if b[p as int] != 0 {
            lemma_trailing_zeros_bound(b[p as int]);
        }
    }
}

/// On a 64-bit machine, reading FRI layers never traps: the `u32` block
/// sizes cannot overflow the bounds check there.
pub proof fn lemma_fri_layers_do_not_trap_on_64_bits(b: Seq<u8>, p: usize, k: nat)
    requires
        p <= b.len() <= isize::MAX,
        usize::BITS == 64,
    ensures
        !(read_fri_layers(b, p, k) is Traps),
    decreases k,
{
    if k > 0 {
        if let Read::At(q) = read_bytes(b, p, 4) {
            if let Read::At(r) = read_bytes(b, q, u32_at(b, p as int)) {
                if let Read::At(s) = read_u32_sized(b, r) {
                    lemma_fri_layers_do_not_trap_on_64_bits(b, s, (k - 1) as nat);
                }
            }
        }
    }
}

/// Reads a set of query openings: the values, then the paths, each a byte
/// vector.
pub open spec fn read_queries(b: Seq<u8>, p: usize) -> Read {
    match read_byte_vec(b, p) {
        Read::At(q) => read_byte_vec(b, q),
        other => other,
    }
}

/// Reads a `u32` length and then that many bytes.
pub open spec fn read_u32_sized(b: Seq<u8>, p: usize) -> Read {
    match read_bytes(b, p, 4) {
        Read::At(q) => read_bytes(b, q, u32_at(b, p as int)),
        other => other,
    }
}

/// Reads `k` FRI layers, each a nonzero `u32`-sized value block and a
/// `u32`-sized path block.
pub open spec fn read_fri_layers(b: Seq<u8>, p: usize, k: nat) -> Read
    decreases k,
{
    if k == 0 {
        Read::At(p)
    } else {
        match read_bytes(b, p, 4) {
            Read::At(q) => if u32_at(b, p as int) == 0 {
                Read::Stops
            } else {
                match read_bytes(b, q, u32_at(b, p as int)) {
                    Read::At(r) => match read_u32_sized(b, r) {
                        Read::At(s) => read_fri_layers(b, s, (k - 1) as nat),
                        other => other,
                    },
                    other => other,
                }
            },
            other => other,
        }
    }
}

/// Reads the FRI proof: a layer count and the layers, the remainder as a
/// `u16`-sized block, and the partition count.
pub open spec fn read_fri_proof(b: Seq<u8>, p: usize) -> Read {
    match read_bytes(b, p, 1) {
        Read::At(q) => match read_fri_layers(b, q, b[p as int] as nat) {
            Read::At(r) => match read_u16_sized(b, r) {
                Read::At(s) => read_bytes(b, s, 1),
                other => other,
            },
            other => other,
        },
        other => other,
    }
}

/// Reads the sections after the context: the unique query count, the
/// commitments, one set of trace query openings per trace segment (two
/// with an auxiliary segment), the constraint query openings, the
/// out-of-domain frame, the FRI proof and the proof-of-work nonce.
pub open spec fn read_sections(b: Seq<u8>, p: usize) -> Read {
    match read_bytes(b, p, 1) {
        Read::At(p1) => match read_u16_sized(b, p1) {
            Read::At(p2) => match read_queries(b, p2) {
                Read::At(p3) => {
                    let t = if b[1] != 0 {
                        read_queries(b, p3)
                    } else {
                        Read::At(p3)
                    };
                    match t {
                        Read::At(p4) => match read_queries(b, p4) {
                            Read::At(p5) => match read_u16_sized(b, p5) {
                                Read::At(p6) => match read_u16_sized(b, p6) {
                                    Read::At(p7) => match read_fri_proof(b, p7) {
                                        Read::At(p8) => read_bytes(b, p8, 8),
                                        other => other,
                                    },
                                    other => other,
                                },
                                other => other,
                            },
                            other => other,
                        },
                        other => other,
                    }
                },
                other => other,
            },
            other => other,
        },
        other => other,
    }
}

/// The whole walk: the context (trace shape, field modulus, options,
/// constraint count), then the sections.
pub open spec fn read_proof(b: Seq<u8>) -> Read {
    match read_trace_info(b) {
        Read::At(p1) => match read_field_modulus(b, p1) {
            Read::At(p2) => match read_options(b, p2) {
                Read::At(p3) => match read_vint(b, p3) {
                    Read::At(p4) => read_sections(b, p4),
                    other => other,
                },
                other => other,
            },
            other => other,
        },
        other => other,
    }
}

/// Decoding these bytes as a proof traps.
pub open spec fn decoding_traps(b: Seq<u8>) -> bool {
    read_proof(b) is Traps
}

/// Decoding these bytes as a proof meets a byte vector declared longer than
/// the bytes that remain.
pub open spec fn decoding_truncated(b: Seq<u8>) -> bool {
    read_proof(b) is Truncated
}

/// `le_value` stays below `256^k`.
proof fn lemma_le_value_bound(b: Seq<u8>, p: int, k: nat)
    ensures
        le_value(b, p, k) < pow256(k),
    decreases k,
{
    if k > 0 {
        lemma_le_value_bound(b, p + 1, (k - 1) as nat);
    }
}

/// The little-endian value of the `k <= 8` bytes at `p`.
fn le_value_at(b: &[u8], p: usize, k: usize) -> (v: u64)
    requires
        p + k <= b@.len(),
        k <= 8,
    ensures
        v == le_value(b@, p as int, k as nat),
{
    let mut acc: u64 = 0;
    let mut i: usize = k;
    let len = b.len();
    proof {
        reveal_with_fuel(pow256, 9);
    }
    while i > 0
        invariant
            p + k <= b@.len(),
            len == b@.len(),
            k <= 8,
            i <= k,
            acc == le_value(b@, p + i, (k - i) as nat),
            pow256((k - i) as nat) <= pow256(8),
            pow256(8) == 18446744073709551616nat,
        decreases i,
    {
        proof {
            lemma_le_value_bound(b@, p + i, (k - i) as nat);
            lemma_pow256_monotone((k - i + 1) as nat, 8);
            assert(pow256((k - i + 1) as nat) == 256 * pow256((k - i) as nat));
        }
        i = i - 1;
        acc = acc * 256 + b[p + i] as u64;
    }
    acc
}

proof fn lemma_pow256_monotone(a: nat, c: nat)
    requires
        a <= c,
    ensures
        pow256(a) <= pow256(c),
    decreases c,
{
    if a < c {
        lemma_pow256_monotone(a, (c - 1) as nat);
    }
}

/// `2^k` for `k <= 8`.
fn pow2_at_most_256(k: usize) -> (v: u64)
    requires
        k <= 8,
    ensures
        v == pow2_nat(k as nat),
        v > 0,
{
    let mut v: u64 = 1;
    let mut i: usize = 0;
    while i < k
        invariant
            i <= k <= 8,
            v == pow2_nat(i as nat),
            v <= 256,
        decreases k - i,
    {
        proof {
            reveal_with_fuel(pow2_nat, 9);
            lemma_pow2_nat_bound(i as nat);
        }
        v = v * 2;
        i = i + 1;
    }
    proof {
        lemma_pow2_nat_positive(k as nat);
    }
    v
}

proof fn lemma_pow2_nat_bound(k: nat)
    requires
        k < 8,
    ensures
        pow2_nat(k) <= 128,
{
    reveal_with_fuel(pow2_nat, 9);
}

proof fn lemma_pow2_nat_positive(k: nat)
    ensures
        pow2_nat(k) > 0,
    decreases k,
{
    if k > 0 {
        lemma_pow2_nat_positive((k - 1) as nat);
    }
}

/// The length of the variable-length integer whose first byte is given.
fn vint_len_of(first: u8) -> (n: usize)
    ensures
        n == vint_len(first),
        1 <= n <= 9,
{
    if first == 0 {
        return 9;
    }
    let mut x = first;
    let mut t: usize = 0;
    proof {
        lemma_trailing_zeros_bound(first);
    }
    while x % 2 == 0
        invariant
            x != 0,
            trailing_zeros(first) == t + trailing_zeros(x),
            t + trailing_zeros(x) <= 7,
        decreases x,
    {
        proof {
            lemma_trailing_zeros_bound(x / 2);
        }
        x = x / 2;
        t = t + 1;
    }
    proof {
        lemma_trailing_zeros_bound(first);
    }
    t + 1
}

proof fn lemma_trailing_zeros_bound(x: u8)
    requires
        x != 0,
    ensures
        trailing_zeros(x) <= 7,
        x < 128 ==> trailing_zeros(x) <= 6,
        x < 64 ==> trailing_zeros(x) <= 5,
        x < 32 ==> trailing_zeros(x) <= 4,
        x < 16 ==> trailing_zeros(x) <= 3,
        x < 8 ==> trailing_zeros(x) <= 2,
        x < 4 ==> trailing_zeros(x) <= 1,
        x < 2 ==> trailing_zeros(x) == 0,
    decreases x,
{
    if x % 2 == 0 {
        lemma_trailing_zeros_bound(x / 2);
    }
}

/// Reads a variable-length integer at `p`, with its value when the read
/// succeeds.
fn read_vint_at(b: &[u8], p: usize) -> (r: (Read, u64))
    requires
        p <= b@.len(),
    ensures
        r.0 matches Read::At(q) ==> q <= b@.len(),
        r.0 == read_vint(b@, p),
        r.0 is At ==> r.1 == vint_value(b@, p as int),
{
    let peek = read_bytes_at(b, p, 1);
    match peek {
        Read::At(_) => {},
        other => return (other, 0),
    }
    let len = vint_len_of(b[p]);
    if len == 9 {
        match read_bytes_at(b, p + 1, 8) {
            Read::At(q) => {
                let v = le_value_at(b, p + 1, 8);
                if v as u128 > usize::MAX as u128 {
                    (Read::Stops, v)
                } else {
                    (Read::At(q), v)
                }
            },
            other => (other, 0),
        }
    } else {
        match read_bytes_at(b, p, len) {
            Read::At(q) => {
                let v = le_value_at(b, p, len) / pow2_at_most_256(len);
                if v as u128 > usize::MAX as u128 {
                    (Read::Stops, v)
                } else {
                    (Read::At(q), v)
                }
            },
            other => (other, 0),
        }
    }
}

/// Reads a byte vector at `p`.
fn read_byte_vec_at(b: &[u8], p: usize) -> (r: Read)
    requires
        p <= b@.len(),
    ensures
        r matches Read::At(q) ==> q <= b@.len(),
        r == read_byte_vec(b@, p),
{
    let (r, n) = read_vint_at(b, p);
    match r {
        Read::At(q) => {
            if n as u128 > (usize::MAX / 2) as u128 {
                Read::Traps
            } else if n as usize > b.len() - q {
                Read::Truncated
            } else {
                Read::At(q + n as usize)
            }
        },
        other => other,
    }
}

/// Reads a `u16` length and that many bytes at `p`.
fn read_u16_sized_at(b: &[u8], p: usize) -> (r: Read)
    requires
        p <= b@.len(),
    ensures
        r matches Read::At(q) ==> q <= b@.len(),
        r == read_u16_sized(b@, p),
{
    match read_bytes_at(b, p, 2) {
        Read::At(q) => read_bytes_at(b, q, b[p] as usize + 256 * b[p + 1] as usize),
        other => other,
    }
}

/// Reads a `u32` length and that many bytes at `p`.
fn read_u32_sized_at(b: &[u8], p: usize) -> (r: Read)
    requires
        p <= b@.len(),
    ensures
        r matches Read::At(q) ==> q <= b@.len(),
        r == read_u32_sized(b@, p),
{
    match read_bytes_at(b, p, 4) {
        Read::At(q) => {
            let n = u32_at_exec(b, p);
            if n as u128 > usize::MAX as u128 {
                Read::Traps
            } else {
                read_bytes_at(b, q, n as usize)
            }
        },
        other => other,
    }
}

/// The little-endian `u32` at `p`.
fn u32_at_exec(b: &[u8], p: usize) -> (n: u64)
    requires
        p + 4 <= b@.len(),
    ensures
        n == u32_at(b@, p as int),
{
    b[p] as u64 + 256 * b[p + 1] as u64 + 65536 * b[p + 2] as u64 + 16777216 * b[p + 3] as u64
}

/// Reads the trace shape at the start of the proof.
fn read_trace_info_at(b: &[u8]) -> (r: Read)
    ensures
        r matches Read::At(q) ==> q <= b@.len(),
        r == read_trace_info(b@),
{
    let n = b.len();
    if n < 1 || b[0] == 0 || n < 2 || b[0] as u32 + b[1] as u32 >= 255 || n < 3 || (b[1] != 0
        && b[2] == 0) || n < 4 || b[3] < 3 {
        Read::Stops
    } else if b[3] as u32 >= usize::BITS {
        Read::Traps
    } else {
        match read_u16_sized_at(b, 4) {
            Read::At(q) => if b[1] == 0 && b[2] != 0 {
                Read::Traps
            } else {
                Read::At(q)
            },
            other => other,
        }
    }
}

/// Reads the field modulus at `p`.
fn read_field_modulus_at(b: &[u8], p: usize) -> (r: Read)
    requires
        p <= b@.len(),
    ensures
        r matches Read::At(q) ==> q <= b@.len(),
        r == read_field_modulus(b@, p),
{
    match read_bytes_at(b, p, 1) {
        Read::At(q) => if b[p] == 0 {
            Read::Stops
        } else {
            read_bytes_at(b, q, b[p] as usize)
        },
        other => other,
    }
}

/// A power of two up to 256.
fn small_power_of_two(x: u32) -> (r: bool)
    ensures
        r == is_small_power_of_two(x as int),
{
    x == 1 || x == 2 || x == 4 || x == 8 || x == 16 || x == 32 || x == 64 || x == 128 || x == 256
}

/// Reads the proof options at `p`.
fn read_options_at(b: &[u8], p: usize) -> (r: Read)
    requires
        p <= b@.len(),
    ensures
        r matches Read::At(q) ==> q <= b@.len(),
        r == read_options(b@, p),
{
    match read_bytes_at(b, p, 8) {
        Read::At(q) => {
            if !(1 <= b[p + 3] && b[p + 3] <= 3) || b[p + 6] > 2 || b[p + 7] > 2 {
                Read::Stops
            } else if !(b[p] > 0 && small_power_of_two(b[p + 1] as u32) && 2 <= b[p + 1] && b[p
                + 1] <= 128 && b[p + 2] <= 32 && small_power_of_two(b[p + 4] as u32) && 2 <= b[p
                + 4] && b[p + 4] <= 16 && small_power_of_two(b[p + 5] as u32 + 1)) {
                Read::Traps
            } else {
                match read_bytes_at(b, q, 2) {
                    Read::At(r) => if !(1 <= b[q] && b[q] <= 16) || b[q + 1] == 0 {
                        Read::Traps
                    } else {
                        Read::At(r)
                    },
                    other => other,
                }
            }
        },
        other => other,
    }
}

/// Reads a set of query openings at `p`.
fn read_queries_at(b: &[u8], p: usize) -> (r: Read)
    requires
        p <= b@.len(),
    ensures
        r matches Read::At(q) ==> q <= b@.len(),
        r == read_queries(b@, p),
{
    match read_byte_vec_at(b, p) {
        Read::At(q) => read_byte_vec_at(b, q),
        other => other,
    }
}

/// Reads `k` FRI layers at `p`.
fn read_fri_layers_at(b: &[u8], p: usize, k: u8) -> (r: Read)
    requires
        p <= b@.len(),
    ensures
        r matches Read::At(q) ==> q <= b@.len(),
        r == read_fri_layers(b@, p, k as nat),
    decreases k,
{
    if k == 0 {
        return Read::At(p);
    }
    match read_bytes_at(b, p, 4) {
        Read::At(q) => {
            let n = u32_at_exec(b, p);
            if n == 0 {
                Read::Stops
            } else if n as u128 > usize::MAX as u128 {
                Read::Traps
            } else {
                match read_bytes_at(b, q, n as usize) {
                    Read::At(r) => match read_u32_sized_at(b, r) {
                        Read::At(s) => read_fri_layers_at(b, s, k - 1),
                        other => other,
                    },
                    other => other,
                }
            }
        },
        other => other,
    }
}

/// Reads the FRI proof at `p`.
fn read_fri_proof_at(b: &[u8], p: usize) -> (r: Read)
    requires
        p <= b@.len(),
    ensures
        r matches Read::At(q) ==> q <= b@.len(),
        r == read_fri_proof(b@, p),
{
    match read_bytes_at(b, p, 1) {
        Read::At(q) => match read_fri_layers_at(b, q, b[p]) {
            Read::At(r) => match read_u16_sized_at(b, r) {
                Read::At(s) => read_bytes_at(b, s, 1),
                other => other,
            },
            other => other,
        },
        other => other,
    }
}

/// Reads the sections after the context at `p`.
fn read_sections_at(b: &[u8], p: usize) -> (r: Read)
    requires
        p <= b@.len(),
        b@.len() >= 2,
    ensures
        r matches Read::At(q) ==> q <= b@.len(),
        r == read_sections(b@, p),
{
    let p1 = match read_bytes_at(b, p, 1) {
        Read::At(q) => q,
        other => return other,
    };
    let p2 = match read_u16_sized_at(b, p1) {
        Read::At(q) => q,
        other => return other,
    };
    let p3 = match read_queries_at(b, p2) {
        Read::At(q) => q,
        other => return other,
    };
    let t = if b[1] != 0 {
        read_queries_at(b, p3)
    } else {
        Read::At(p3)
    };
    let p4 = match t {
        Read::At(q) => q,
        other => return other,
    };
    let p5 = match read_queries_at(b, p4) {
        Read::At(q) => q,
        other => return other,
    };
    let p6 = match read_u16_sized_at(b, p5) {
        Read::At(q) => q,
        other => return other,
    };
    let p7 = match read_u16_sized_at(b, p6) {
        Read::At(q) => q,
        other => return other,
    };
    let p8 = match read_fri_proof_at(b, p7) {
        Read::At(q) => q,
        other => return other,
    };
    read_bytes_at(b, p8, 8)
}

/// Walks the layout of an encoded proof.
pub fn walk_proof(b: &[u8]) -> (r: Read)
    ensures
        r == read_proof(b@),
{
    match read_trace_info_at(b) {
        Read::At(p1) => match read_field_modulus_at(b, p1) {
            Read::At(p2) => match read_options_at(b, p2) {
                Read::At(p3) => match read_vint_at(b, p3).0 {
                    Read::At(p4) => read_sections_at(b, p4),
                    other => other,
                },
                other => other,
            },
            other => other,
        },
        other => other,
    }
}

/// Says whether decoding these bytes as a proof traps.
pub fn proof_decoding_traps(b: &[u8]) -> (traps: bool)
    ensures
        traps == decoding_traps(b@),
{
    match walk_proof(b) {
        Read::Traps => true,
        _ => false,
    }
}

} // verus!
