use life_core::board::Board;
use life_core::fingerprint::{Fnv1Hasher, FNV1_64_OFFSET_BASIS, FNV1_64_PRIME};

/// The FNV-1 step, recomputed independently of the library.
fn step(h: u64, b: u8) -> u64 {
    h.wrapping_mul(FNV1_64_PRIME) ^ (b as u64)
}

#[test]
fn fresh_hasher_finalizes_to_offset_basis() {
    let h = Fnv1Hasher::new();
    assert_eq!(h.finalize(), FNV1_64_OFFSET_BASIS);
}

#[test]
fn one_byte_matches_fnv1_formula() {
    let mut h = Fnv1Hasher::new();
    h.hash(0xab);
    assert_eq!(h.finalize(), step(FNV1_64_OFFSET_BASIS, 0xab));
}

#[test]
fn byte_sequence_matches_fnv1_formula() {
    let bytes = [0x00u8, 0x01, 0xff, 0x42, 0x42, 0x10];
    let mut h = Fnv1Hasher::new();
    let mut expected = FNV1_64_OFFSET_BASIS;
    for b in bytes {
        h.hash(b);
        expected = step(expected, b);
    }
    assert_eq!(h.finalize(), expected);
}

#[test]
fn hash_u64_be_equals_eight_single_byte_hashes() {
    let v: u64 = 0x0123_4567_89ab_cdef;
    let mut whole = Fnv1Hasher::new();
    whole.hash_u64_be(v);
    let mut bytewise = Fnv1Hasher::new();
    for b in v.to_be_bytes() {
        bytewise.hash(b);
    }
    assert_eq!(whole.finalize(), bytewise.finalize());
}

#[test]
fn board_fingerprint_matches_formula() {
    // 2x2 board with one live cell at interior (0, 1), i.e. grid (1, 2):
    // terms row-major are 0, 0, 1*2, 0, each fed as 8 big-endian bytes.
    let mut b = Board::new(2, 2, 1).unwrap();
    b.seed(vec![(0, 1)]);
    let mut expected = FNV1_64_OFFSET_BASIS;
    for term in [0u64, 0, 2, 0] {
        for byte in term.to_be_bytes() {
            expected = step(expected, byte);
        }
    }
    assert_eq!(b.fingerprint(), expected);
}

#[test]
fn fingerprint_ignores_touch_residue() {
    // Identical liveness hashes identically, whatever the touch counters
    // hold: the digest before and after a touch phase is the same.
    let mut b = Board::new(6, 6, 4).unwrap();
    b.seed(vec![(2, 2), (3, 2), (2, 3), (3, 3)]);
    let before = b.fingerprint();
    b.touch_phase();
    assert_eq!(b.fingerprint(), before);
}

#[test]
fn fingerprint_changes_when_one_cell_flips() {
    // Flipping exactly one interior cell changes the digest (probabilistic
    // in general; it holds on this concrete board).
    let mut a = Board::new(4, 4, 1).unwrap();
    let mut b = Board::new(4, 4, 1).unwrap();
    a.seed(vec![(1, 1), (2, 2)]);
    b.seed(vec![(1, 1), (2, 2), (3, 3)]);
    assert_ne!(a.fingerprint(), b.fingerprint());
}

#[test]
fn equal_boards_hash_equal() {
    let mut a = Board::new(5, 5, 2).unwrap();
    let mut b = Board::new(5, 5, 2).unwrap();
    a.seed(vec![(1, 2), (2, 2), (3, 2)]);
    b.seed(vec![(1, 2), (2, 2), (3, 2)]);
    assert_eq!(a.fingerprint(), b.fingerprint());
}
