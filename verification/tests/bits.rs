use mpc_iris_code::arch::dot_bool;
use mpc_iris_code::bits::{rotate_row, LIMBS};
use mpc_iris_code::{Bits, BITS, COLS, ROWS};

fn with_bits(positions: &[usize]) -> Bits {
    let mut limbs = [0u64; LIMBS];
    for &p in positions {
        limbs[p / 64] |= 1u64 << (p % 64);
    }
    Bits(limbs)
}

fn positions(bits: &Bits) -> Vec<usize> {
    (0..BITS).filter(|&i| bits.index(i)).collect()
}

#[test]
fn dimensions_agree() {
    assert_eq!(ROWS * COLS, BITS);
    assert_eq!(ROWS, 64);
    assert_eq!(COLS, 200);
}

#[test]
fn index_reads_the_top_bit_of_a_limb() {
    let bits = with_bits(&[63, 127, 191]);
    for i in 0..256 {
        assert_eq!(bits.index(i), i == 63 || i == 127 || i == 191, "bit {i}");
    }
}

#[test]
fn index_counts_from_the_least_significant_bit() {
    let mut limbs = [0u64; LIMBS];
    limbs[1] = 0b101;
    let bits = Bits(limbs);
    assert!(bits.index(64));
    assert!(!bits.index(65));
    assert!(bits.index(66));
    assert_eq!(positions(&bits), vec![64, 66]);
}

#[test]
fn default_is_all_clear() {
    let bits = Bits::default();
    assert_eq!(bits.count_ones(), 0);
    assert_eq!(bits, Bits([0u64; LIMBS]));
}

#[test]
fn rotate_moves_toward_higher_columns() {
    let bits = with_bits(&[0, 199, 200 * 3 + 5, 200 * 63 + 199]);
    assert_eq!(
        positions(&bits.rotated(1)),
        vec![0, 1, 200 * 3 + 6, 200 * 63]
    );
    assert_eq!(
        positions(&bits.rotated(-1)),
        vec![198, 199, 200 * 3 + 4, 200 * 63 + 198]
    );
}

#[test]
fn rotate_matches_the_column_formula() {
    let bits = Bits::random();
    for amount in -15i32..=15 {
        let rotated = bits.rotated(amount);
        for i in 0..BITS {
            let (row, col) = (i / COLS, i % COLS);
            let from = (col as i32 - amount).rem_euclid(COLS as i32) as usize;
            assert_eq!(rotated.index(i), bits.index(row * COLS + from), "{amount} at {i}");
        }
    }
}

#[test]
fn rotate_by_zero_changes_nothing() {
    let bits = Bits::random();
    assert_eq!(bits.rotated(0), bits);
    let mut copy = bits;
    copy.rotate(0);
    assert_eq!(copy, bits);
}

#[test]
fn bits_rotated_inverse() {
    for _ in 0..20 {
        let bits = Bits::random();
        for amount in -15..=15 {
            assert_eq!(bits.rotated(amount).rotated(-amount), bits, "{amount}");
        }
    }
}

#[test]
fn rotations_compose() {
    let bits = Bits::random();
    assert_eq!(bits.rotated(8).rotated(7), bits.rotated(15));
    assert_eq!(bits.rotated(-8).rotated(-7), bits.rotated(-15));
    assert_eq!(bits.rotated(5).rotated(-3), bits.rotated(2));
}

#[test]
fn rotate_row_by_one_bit() {
    let mut row = [0u8; 25];
    row[0] = 0x01;
    row[24] = 0x80;
    rotate_row(&mut row, 1);
    let mut expected = [0u8; 25];
    expected[0] = 0x03;
    assert_eq!(row, expected);
}

#[test]
fn rotate_row_by_one_bit_back() {
    let mut row = [0u8; 25];
    row[0] = 0x03;
    rotate_row(&mut row, -1);
    let mut expected = [0u8; 25];
    expected[0] = 0x01;
    expected[24] = 0x80;
    assert_eq!(row, expected);
}

#[test]
fn rotate_row_by_whole_bytes() {
    let mut row = [0u8; 25];
    for (k, b) in row.iter_mut().enumerate() {
        *b = k as u8 + 1;
    }
    let original = row;
    rotate_row(&mut row, 8);
    for k in 0..25 {
        assert_eq!(row[k], original[(k + 24) % 25]);
    }
    rotate_row(&mut row, -8);
    assert_eq!(row, original);
}

#[test]
fn rotate_row_by_every_amount() {
    let mut original = [0u8; 25];
    for (k, b) in original.iter_mut().enumerate() {
        *b = (k as u8).wrapping_mul(37).wrapping_add(11);
    }
    let bit = |row: &[u8; 25], c: usize| (row[c / 8] >> (c % 8)) & 1 == 1;
    for amount in -15i32..=15 {
        let mut row = original;
        rotate_row(&mut row, amount);
        for c in 0..200usize {
            let from = (c as i32 - amount).rem_euclid(200) as usize;
            assert_eq!(bit(&row, c), bit(&original, from), "{amount} at {c}");
        }
    }
}

#[test]
fn bitwise_operations() {
    let a = with_bits(&[0, 1, 70, 12799]);
    let b = with_bits(&[1, 2, 70, 500]);
    assert_eq!(positions(&a.bitand(&b)), vec![1, 70]);
    assert_eq!(positions(&a.bitor(&b)), vec![0, 1, 2, 70, 500, 12799]);
    assert_eq!(positions(&a.bitxor(&b)), vec![0, 2, 500, 12799]);
    assert_eq!(a.not().count_ones(), 12800 - 4);
    assert!(!a.not().index(0));
    assert!(a.not().index(3));
}

#[test]
fn bitwise_assignments() {
    let a = with_bits(&[0, 1, 70, 12799]);
    let b = with_bits(&[1, 2, 70, 500]);
    let mut x = a;
    x.bitand_assign(&b);
    assert_eq!(x, a.bitand(&b));
    let mut x = a;
    x.bitor_assign(&b);
    assert_eq!(x, a.bitor(&b));
    let mut x = a;
    x.bitxor_assign(&b);
    assert_eq!(x, a.bitxor(&b));
}

#[test]
fn count_ones_counts() {
    assert_eq!(with_bits(&[]).count_ones(), 0);
    assert_eq!(with_bits(&[5]).count_ones(), 1);
    assert_eq!(with_bits(&[0, 63, 64, 12799]).count_ones(), 4);
    assert_eq!(Bits([u64::MAX; LIMBS]).count_ones(), 12800);
}

#[test]
fn dot_counts_common_bits() {
    let a = with_bits(&[0, 1, 70, 12799]);
    let b = with_bits(&[1, 2, 70, 500]);
    assert_eq!(a.dot(&b), 2);
    assert_eq!(dot_bool(&a.0, &b.0), 2);
    let full = Bits([u64::MAX; LIMBS]);
    assert_eq!(full.dot(&full), 12800);
    assert_eq!(a.dot(&Bits::default()), 0);
}

#[test]
fn bytes_are_little_endian() {
    let mut limbs = [0u64; LIMBS];
    limbs[0] = 0x0807_0605_0403_0201;
    limbs[199] = 0xff00_0000_0000_0000;
    let bytes = Bits(limbs).to_bytes();
    assert_eq!(&bytes[..8], &[1, 2, 3, 4, 5, 6, 7, 8]);
    assert_eq!(bytes[1599], 0xff);
    assert_eq!(bytes[1598], 0);
    assert_eq!(bytes.iter().filter(|&&b| b != 0).count(), 9);
}

#[test]
fn bytes_round_trip() {
    let bits = Bits::random();
    assert_eq!(Bits::from_bytes(&bits.to_bytes()), bits);
    let mut bytes = [0u8; 1600];
    bytes[9] = 0x80;
    let bits = Bits::from_bytes(&bytes);
    assert_eq!(bits.0[1], 0x8000);
    assert_eq!(positions(&bits), vec![64 + 15]);
}

#[test]
fn from_slice_reads_the_bytes_in_order() {
    let mut bytes = vec![0u8; 1600];
    bytes[0] = 0x01;
    bytes[8] = 0x02;
    bytes[1599] = 0x80;
    let bits = Bits::from_slice(&bytes);
    assert_eq!(positions(&bits), vec![0, 65, 12799]);
    assert_eq!(&bits.to_bytes()[..], &bytes[..]);
    let drawn = Bits::random();
    assert_eq!(Bits::from_slice(&drawn.to_bytes()), drawn);
}

#[test]
fn random_vectors_differ() {
    assert_ne!(Bits::random(), Bits::random());
    let ones = Bits::random().count_ones();
    assert!(ones > 5000 && ones < 7800);
}
