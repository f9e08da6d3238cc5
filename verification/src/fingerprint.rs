use vstd::prelude::*;

verus! {

/// FNV-1 64-bit offset basis: the initial accumulator value.
pub const FNV1_64_OFFSET_BASIS: u64 = 0xcbf2_9ce4_8422_2325;

/// FNV-1 64-bit prime multiplier.
pub const FNV1_64_PRIME: u64 = 0x100_0000_01b3;

/// One FNV-1 step: multiply the accumulator by the prime (mod 2^64), then
/// fold in one byte with xor.
pub open spec fn fnv1_step(h: u64, b: u8) -> u64 {
    vstd::wrapping::u64_specs::wrapping_mul(h, FNV1_64_PRIME) ^ (b as u64)
}

/// FNV-1 over a byte sequence, starting from accumulator `h`.
pub open spec fn fnv1_fold(h: u64, bytes: Seq<u8>) -> u64
    decreases bytes.len(),
{
    if bytes.len() == 0 {
        h
    } else {
        fnv1_step(fnv1_fold(h, bytes.drop_last()), bytes.last())
    }
}

/// Folding one more element of a prefix is one step past the shorter prefix.
pub proof fn lemma_fnv1_fold_take_succ(h: u64, bytes: Seq<u8>, i: int)
    requires
        0 <= i < bytes.len(),
    ensures
        fnv1_fold(h, bytes.take(i + 1)) == fnv1_step(fnv1_fold(h, bytes.take(i)), bytes[i]),
{
    assert(bytes.take(i + 1).drop_last() =~= bytes.take(i));
    assert(bytes.take(i + 1).last() == bytes[i]);
}

/// Big-endian byte `i` (0 is the most significant) of a 64-bit value.
pub open spec fn u64_be_byte(v: u64, i: int) -> u8 {
    ((v >> (((7 - i) * 8) as u64)) & 0xff) as u8
}

/// The eight big-endian bytes of a 64-bit value, most significant first.
pub open spec fn u64_be_bytes(v: u64) -> Seq<u8> {
    Seq::new(8, |i: int| u64_be_byte(v, i))
}

/// A cell's contribution to the board digest: the wrapping product of its
/// grid coordinates, masked by liveness so a dead cell contributes a zero
/// term (only its position in the iteration order affects the digest).
pub open spec fn cell_term(x: usize, y: usize, live: bool) -> u64 {
    if live {
        vstd::wrapping::usize_specs::wrapping_mul(x, y) as u64
    } else {
        0
    }
}

/// The bytes a cell feeds into the digest: its term, big-endian.
pub open spec fn cell_bytes(x: usize, y: usize, live: bool) -> Seq<u8> {
    u64_be_bytes(cell_term(x, y, live))
}

/// The accumulator after folding in the first `n` cells of interior row
/// `row`, which sits at grid row `y` (cell `row[k]` sits at grid column
/// `k + 1`).
pub open spec fn hash_row(h: u64, row: Seq<bool>, y: usize, n: int) -> u64
    decreases n,
{
    if n <= 0 {
        h
    } else {
        fnv1_fold(hash_row(h, row, y, n - 1), cell_bytes(n as usize, y, row[n - 1]))
    }
}

/// The accumulator after folding in the first `m` interior rows, row-major
/// (interior row `k` sits at grid row `k + 1`).
pub open spec fn hash_rows(h: u64, rows: Seq<Seq<bool>>, m: int) -> u64
    decreases m,
{
    if m <= 0 {
        h
    } else {
        hash_row(hash_rows(h, rows, m - 1), rows[m - 1], m as usize, rows[m - 1].len() as int)
    }
}

/// The board fingerprint: FNV-1 over the per-cell terms of the interior
/// liveness `rows`, row-major. A pure function of interior liveness and
/// position alone; it is deterministic but not collision-free.
pub open spec fn board_fingerprint(rows: Seq<Seq<bool>>) -> u64 {
    hash_rows(FNV1_64_OFFSET_BASIS, rows, rows.len() as int)
}

/// An incremental FNV-1 64-bit hasher.
pub struct Fnv1Hasher {
    pub state: u64,
}

impl Fnv1Hasher {
    /// A hasher initialized to the offset basis.
    pub fn new() -> (h: Fnv1Hasher)
        ensures
            h.state == FNV1_64_OFFSET_BASIS,
    {
        Fnv1Hasher { state: FNV1_64_OFFSET_BASIS }
    }

    /// Fold one byte into the accumulator.
    pub fn hash(&mut self, byte: u8)
        ensures
            final(self).state == fnv1_step(old(self).state, byte),
    {
        self.state = self.state.wrapping_mul(FNV1_64_PRIME) ^ (byte as u64);
    }

    /// Fold a value's eight big-endian bytes into the accumulator, most
    /// significant byte first.
    pub fn hash_u64_be(&mut self, v: u64)
        ensures
            final(self).state == fnv1_fold(old(self).state, u64_be_bytes(v)),
    {
        let ghost h0 = self.state;
        for i in 0..8usize
            invariant
                self.state == fnv1_fold(h0, u64_be_bytes(v).take(i as int)),
        {
            let shift: u64 = 56 - 8 * (i as u64);
            let byte: u8 = ((v >> shift) & 0xff) as u8;
            assert((v >> shift) & 0xff < 256) by (bit_vector);
            assert(byte == u64_be_byte(v, i as int));
            proof {
                lemma_fnv1_fold_take_succ(h0, u64_be_bytes(v), i as int);
            }
            self.hash(byte);
        }
        proof {
            assert(u64_be_bytes(v).take(8) =~= u64_be_bytes(v));
        }
    }

    /// The current digest.
    pub fn finalize(&self) -> (r: u64)
        ensures
            r == self.state,
    {
        self.state
    }
}

} // verus!
