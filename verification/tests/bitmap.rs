//! Bitmaps: packing, operators, and canonical padding.
use tallydb::bitmap::{byte_len, tail_mask, Bitmap};

/// Lengths that straddle the byte and word boundaries.
const EDGE_LENGTHS: [usize; 8] = [0, 1, 7, 8, 9, 63, 64, 65];

/// Padding bits past the length are zero.
fn assert_canonical(bm: &Bitmap) {
    assert_eq!(bm.as_bytes().len(), bm.len().div_ceil(8));
    if let Some(&last) = bm.as_bytes().last() {
        assert_eq!(last & !tail_mask(bm.len()), 0, "padding bits set");
    }
}

/// A fixed scatter of bits.
fn scatter(len: usize, seed: u64) -> Vec<bool> {
    let mut state = seed;
    let mut bits = Vec::new();
    for _ in 0..len {
        state = state.wrapping_mul(6364136223846793005).wrapping_add(1442695040888963407);
        bits.push(state >> 63 == 1);
    }
    bits
}

#[test]
fn constructors_at_edge_lengths() {
    for &len in EDGE_LENGTHS.iter() {
        let set = Bitmap::new_set(len);
        let unset = Bitmap::new_unset(len);
        assert_eq!(set.len(), len);
        assert_eq!(unset.len(), len);
        assert_eq!(set.count_set(), len);
        assert_eq!(unset.count_set(), 0);
        assert_canonical(&set);
        assert_canonical(&unset);
        for i in 0..len {
            assert!(set.get(i));
            assert!(!unset.get(i));
        }
    }
}

#[test]
fn empty_bitmap() {
    let bm = Bitmap::new_set(0);
    assert!(bm.is_empty());
    assert_eq!(bm.as_bytes(), &[] as &[u8]);
    assert_eq!(bm.iter_set().len(), 0);
    assert_eq!(bm.not(), bm);
    assert_eq!(bm.and(&bm), bm);
}

#[test]
fn set_and_clear_across_byte_boundary() {
    let mut bm = Bitmap::new_unset(16);
    bm.set(7, true);
    bm.set(8, true);
    assert_eq!(bm.as_bytes(), &[0b1000_0000, 0b0000_0001]);
    bm.set(7, false);
    assert_eq!(bm.as_bytes(), &[0b0000_0000, 0b0000_0001]);
    assert_eq!(bm.iter_set(), vec![8]);
}

#[test]
fn op_identities_at_edge_lengths() {
    for &len in EDGE_LENGTHS.iter() {
        let ones = Bitmap::new_set(len);
        let zeros = Bitmap::new_unset(len);
        assert_eq!(ones.and(&zeros), zeros);
        assert_eq!(ones.or(&zeros), ones);
        assert_eq!(zeros.not(), ones);
        assert_eq!(ones.not(), zeros);
    }
}

#[test]
fn bitmaps_match_a_list_of_bools() {
    for len in 0..80 {
        let a = scatter(len, len as u64 + 1);
        let b = scatter(len, len as u64 + 1000);
        let bm = Bitmap::from_bools(&a);
        assert_eq!(bm.len(), a.len());
        assert_canonical(&bm);
        for i in 0..len {
            assert_eq!(bm.get(i), a[i]);
        }
        assert_eq!(bm.count_set(), a.iter().filter(|&&x| x).count());
        let indices: Vec<usize> = (0..len).filter(|&i| a[i]).collect();
        assert_eq!(bm.iter_set(), indices);
        let not = bm.not();
        assert_canonical(&not);
        assert_eq!(not.not(), bm.clone());
        let other = Bitmap::from_bools(&b);
        let and = bm.and(&other);
        let or = bm.or(&other);
        assert_canonical(&and);
        assert_canonical(&or);
        for i in 0..len {
            assert_eq!(not.get(i), !a[i]);
            assert_eq!(and.get(i), a[i] && b[i]);
            assert_eq!(or.get(i), a[i] || b[i]);
        }
        // De Morgan.
        assert_eq!(and.not(), bm.not().or(&other.not()));
    }
}

#[test]
fn set_and_get_round_trip() {
    let mut bm = Bitmap::new_unset(130);
    let mut model = vec![false; 130];
    let values = scatter(500, 77);
    for (step, &value) in values.iter().enumerate() {
        let i = (step * 37 + step / 7) % 130;
        bm.set(i, value);
        model[i] = value;
        assert_eq!(bm.get(i), value);
    }
    assert_canonical(&bm);
    assert_eq!(Bitmap::from_bools(&model), bm);
}

#[test]
fn equal_bits_pack_to_equal_bytes() {
    let bits = scatter(61, 5);
    let built = Bitmap::from_bools(&bits);
    let mut filled = Bitmap::new_set(61);
    for (i, &bit) in bits.iter().enumerate() {
        filled.set(i, bit);
    }
    assert_eq!(built.as_bytes(), filled.as_bytes());
    assert_eq!(built, filled);
    filled.set(60, !bits[60]);
    assert_ne!(built, filled);
}

#[test]
fn byte_counts_and_tail_masks() {
    assert_eq!(byte_len(0), 0);
    assert_eq!(byte_len(8), 1);
    assert_eq!(byte_len(9), 2);
    assert_eq!(tail_mask(8), 0xFF);
    assert_eq!(tail_mask(11), 0b0000_0111);
}

#[test]
fn clones_share_their_bytes_until_one_changes() {
    let held = Bitmap::from_bools(&[true, false, true]);
    let mut copy = held.clone();
    assert_eq!(held.as_bytes().as_ptr(), copy.as_bytes().as_ptr());
    copy.set(1, true);
    assert_ne!(held.as_bytes().as_ptr(), copy.as_bytes().as_ptr());
    assert_eq!(held, Bitmap::from_bools(&[true, false, true]));
    assert_eq!(copy, Bitmap::new_set(3));
}
