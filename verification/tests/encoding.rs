use mpc_iris_code::bits::LIMBS;
use mpc_iris_code::{encode, Bits, EncodedBits, SecretBits, Template, BITS};

fn with_bits(positions: &[usize]) -> Bits {
    let mut limbs = [0u64; LIMBS];
    for &p in positions {
        limbs[p / 64] |= 1u64 << (p % 64);
    }
    Bits(limbs)
}

#[test]
fn test_preprocess() {
    for _ in 0..100 {
        let entry = Template::random();
        let encrypted = encode(&entry);
        for (i, v) in encrypted.0.iter().enumerate() {
            match *v {
                u16::MAX => assert!(entry.mask.index(i) && entry.pattern.index(i)),
                0 => assert!(!entry.mask.index(i)),
                1 => assert!(entry.mask.index(i) && !entry.pattern.index(i)),
                _ => panic!(),
            }
        }
    }
}

#[test]
fn test_dotproduct() {
    for _ in 0..100 {
        let a = Template::random();
        let b = Template::random();
        let pre_a = encode(&a);
        let pre_b = encode(&b);

        let mut equal = 0;
        let mut uneq = 0;
        let mut denominator = 0;
        for i in 0..BITS {
            if a.mask.index(i) && b.mask.index(i) {
                denominator += 1;
                if a.pattern.index(i) == b.pattern.index(i) {
                    equal += 1;
                } else {
                    uneq += 1;
                }
            }
        }

        let sum = pre_a.mul(&pre_b).sum() as i16;
        assert_eq!(equal - uneq, sum);
        assert_eq!(equal + uneq, denominator);
        assert_eq!((denominator - sum) % 2, 0);
        assert_eq!(uneq, (denominator - sum) / 2);
    }
}

#[test]
fn encode_known_template() {
    let template = Template {
        pattern: with_bits(&[0, 1, 5, 12799]),
        mask: with_bits(&[1, 2, 12799]),
    };
    let encoded = encode(&template);
    let mut expected = [0u16; BITS];
    expected[1] = 0xffff;
    expected[2] = 1;
    expected[12799] = 0xffff;
    assert_eq!(encoded.0, expected);
}

#[test]
fn encode_commutes_with_rotation() {
    for _ in 0..5 {
        let template = Template::random();
        let encoded = encode(&template);
        for amount in -15..=15 {
            assert_eq!(encode(&template.rotated(amount)), encoded.rotated(amount), "{amount}");
        }
    }
}

#[test]
fn from_bits_gives_ones_and_zeros() {
    let bits = with_bits(&[3, 64, 12799]);
    let words = EncodedBits::from(&bits);
    let mut expected = [0u16; BITS];
    expected[3] = 1;
    expected[64] = 1;
    expected[12799] = 1;
    assert_eq!(words.0, expected);
    assert_eq!(SecretBits::from(&bits).0, expected);
}

#[test]
fn template_rotation_inverse() {
    for _ in 0..100 {
        let template = Template::random();
        for amount in -15..=15 {
            assert_eq!(template.rotated(amount).rotated(-amount), template, "{amount}");
        }
    }
}

#[test]
fn template_rotate_rotates_both_parts() {
    let template = Template::random();
    let mut copy = template;
    copy.rotate(7);
    assert_eq!(copy.pattern, template.pattern.rotated(7));
    assert_eq!(copy.mask, template.mask.rotated(7));
    assert_eq!(copy, template.rotated(7));
}

#[test]
fn default_template_is_empty() {
    let template = Template::default();
    assert_eq!(template.pattern, Bits::default());
    assert_eq!(template.mask, Bits::default());
    assert_eq!(encode(&template), EncodedBits::default());
}

#[test]
fn ring_arithmetic_wraps() {
    let mut a = [0u16; BITS];
    let mut b = [0u16; BITS];
    a[0] = 0xffff;
    b[0] = 2;
    a[1] = 3;
    b[1] = 5;
    a[2] = 0x8000;
    b[2] = 0x8000;
    let (a, b) = (EncodedBits(a), EncodedBits(b));

    let sum = {
        let mut s = a;
        s.add_assign(&b);
        s
    };
    assert_eq!(&sum.0[..3], &[1, 8, 0]);
    assert_eq!(a.add(&b), sum);
    assert_eq!(&a.sub(&b).0[..3], &[0xfffd, 0xfffe, 0]);
    assert_eq!(&a.mul(&b).0[..3], &[0xfffe, 15, 0]);
    assert_eq!(&a.neg().0[..4], &[1, 0xfffd, 0x8000, 0]);
    assert_eq!(a.sum(), 0xffffu16.wrapping_add(3).wrapping_add(0x8000));
    assert_eq!(a.dot(&b), 0xfffeu16.wrapping_add(15));

    let mut d = a;
    d.sub_assign(&b);
    assert_eq!(d, a.sub(&b));
    let mut m = a;
    m.mul_assign(&b);
    assert_eq!(m, a.mul(&b));
}

#[test]
fn secret_ring_arithmetic_wraps() {
    let mut a = [0u16; BITS];
    let mut b = [0u16; BITS];
    a[0] = 0xffff;
    b[0] = 2;
    a[12799] = 7;
    b[12799] = 9;
    let (a, b) = (SecretBits(a), SecretBits(b));
    assert_eq!(a.sub(&b).0[0], 0xfffd);
    assert_eq!(a.mul(&b).0[12799], 63);
    assert_eq!(a.neg().0[12799], 0xfff9);
    assert_eq!(a.sum(), 6);
    assert_eq!(a.dot(&b), 0xfffeu16.wrapping_add(63));
    let mut s = a;
    s.add_assign(&b);
    assert_eq!(s.0[0], 1);
    assert_eq!(s.0[12799], 16);
    assert_eq!(a.add(&b), s);
}

#[test]
fn dot_is_sum_of_products() {
    let a = EncodedBits::random();
    let b = EncodedBits::random();
    assert_eq!(a.dot(&b), a.mul(&b).sum());
    let expected = a
        .0
        .iter()
        .zip(b.0.iter())
        .map(|(&x, &y)| x as u64 * y as u64)
        .sum::<u64>() as u16;
    assert_eq!(a.dot(&b), expected);
}

#[test]
fn test_share_reconstructs() {
    let secret = encode(&Template::random());
    let shares = secret.share(3);
    assert_eq!(shares.len(), 3);
    let mut sum = EncodedBits::default();
    for share in shares.iter() {
        sum.add_assign(share);
    }
    assert_eq!(sum, secret);
}

#[test]
fn share_counts() {
    let secret = EncodedBits::random();
    for n in [1usize, 2, 5] {
        let shares = secret.share(n);
        assert_eq!(shares.len(), n);
        let mut sum = EncodedBits::default();
        for share in shares.iter() {
            sum.add_assign(share);
        }
        assert_eq!(sum, secret);
    }
    assert_eq!(secret.share(1)[0], secret);
}

#[test]
fn share_from_completes_the_given_vectors() {
    let secret = EncodedBits::random();
    let first = EncodedBits::random();
    let second = EncodedBits::random();
    let shares = secret.share_from(vec![first, second]);
    assert_eq!(shares.len(), 3);
    assert_eq!(shares[0], first);
    assert_eq!(shares[1], second);
    assert_eq!(shares[2], secret.sub(&first).sub(&second));
    assert_eq!(secret.share_from(Vec::new()), vec![secret]);
}

#[test]
fn secret_shares_reconstruct() {
    let secret = SecretBits::random();
    let shares = secret.share(4);
    assert_eq!(shares.len(), 4);
    let mut sum = SecretBits::default();
    for share in shares.iter() {
        sum.add_assign(share);
    }
    assert_eq!(sum, secret);
}

#[test]
fn shares_look_uniform() {
    // The top four bits of the elements of one share of a constant vector
    // fall into sixteen buckets; 800 are expected in each.
    let secret = EncodedBits([1u16; BITS]);
    let shares = secret.share(3);
    for share in shares.iter() {
        let mut buckets = [0f64; 16];
        for &v in share.0.iter() {
            buckets[(v >> 12) as usize] += 1.0;
        }
        let chi: f64 = buckets.iter().map(|&o| (o - 800.0) * (o - 800.0) / 800.0).sum();
        assert!(chi < 100.0, "chi-square {chi}");
    }
    assert_ne!(secret.share(3)[0], shares[0]);
}

#[test]
fn encoded_rotation_covers_whole_rows() {
    let vector = EncodedBits::random();
    assert_eq!(vector.rotated(200), vector);
    assert_eq!(vector.rotated(-200), vector);
    assert_eq!(vector.rotated(100).rotated(100), vector);
    assert_eq!(vector.rotated(0), vector);
    let mut copy = vector;
    copy.rotate(-15);
    assert_eq!(copy, vector.rotated(-15));
}

#[test]
fn encoded_bytes_are_little_endian() {
    let mut words = [0u16; BITS];
    words[0] = 0x0201;
    words[12799] = 0xff00;
    let bytes = EncodedBits(words).to_bytes();
    assert_eq!(bytes.len(), 25600);
    assert_eq!(&bytes[..4], &[1, 2, 0, 0]);
    assert_eq!(&bytes[25598..], &[0, 0xff]);
    assert_eq!(EncodedBits::from_bytes(&bytes), Some(EncodedBits(words)));
    assert_eq!(EncodedBits::from_bytes(&bytes[1..]), None);
    let vector = SecretBits::random();
    assert_eq!(SecretBits::from_bytes(&vector.to_bytes()), Some(vector));
    assert_eq!(SecretBits::from_bytes(&[]), None);
}
