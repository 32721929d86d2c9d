use mpc_iris_code::arch::generic::{dot_field, dot_ring};
use mpc_iris_code::arch::reference;
use mpc_iris_code::arch::{sve, sve2};
use mpc_iris_code::arch::{dot_bool, dot_u16};
use mpc_iris_code::dotprod::dot_ref;
use mpc_iris_code::{
    decode_distance, denominators, distances, encode, Bits, DistanceEngine, EncodedBits, Fraction,
    MasksEngine, Template, BITS,
};

fn as_f64(distance: Option<Fraction>) -> f64 {
    match distance {
        Some(f) => f.numerator as f64 / f.denominator as f64,
        None => f64::INFINITY,
    }
}

fn reference_distance(a: &Template, b: &Template) -> f64 {
    let mut least = f64::INFINITY;
    for r in -15..=15 {
        let rotated = a.rotated(r);
        let mut num = 0u32;
        let mut den = 0u32;
        for i in 0..200 {
            let m = rotated.mask.0[i] & b.mask.0[i];
            let p = (rotated.pattern.0[i] ^ b.pattern.0[i]) & m;
            num += p.count_ones();
            den += m.count_ones();
        }
        least = least.min(num as f64 / den as f64);
    }
    least
}

#[test]
fn test_dot_u16() {
    let a_vals = EncodedBits::random().0;
    let b_vals = EncodedBits::random().0;

    let result = dot_u16(&a_vals, &b_vals);

    let expected = a_vals
        .iter()
        .zip(b_vals.iter())
        .map(|(&a, &b)| a as u64 * b as u64)
        .sum::<u64>() as u16;

    assert_eq!(
        result, expected,
        "dot_u16 did not produce the expected result"
    );
}

#[test]
fn test_encrypted_distances() {
    for _ in 0..20 {
        let query = Template::random();
        let entry = Template::random();
        let expected = reference_distance(&query, &entry);

        let encrypted = encode(&entry);
        for (i, v) in encrypted.0.iter().enumerate() {
            match *v {
                u16::MAX => assert!(entry.mask.index(i) && entry.pattern.index(i)),
                0 => assert!(!entry.mask.index(i)),
                1 => assert!(entry.mask.index(i) && !entry.pattern.index(i)),
                _ => panic!(),
            }
        }

        let preprocessed = encode(&query);
        let distances = distances(&preprocessed, &encrypted);
        let denominators = denominators(&query.mask, &entry.mask);

        let actual = as_f64(decode_distance(&distances, &denominators));

        assert_eq!(actual, expected);
        assert_eq!(as_f64(query.distance(&entry)), expected);
    }
}

#[test]
fn dot_u16_known_values() {
    let mut a = [0u16; BITS];
    let mut b = [0u16; BITS];
    a[0] = 3;
    b[0] = 5;
    a[12799] = 0xffff;
    b[12799] = 0xffff;
    a[7] = 0x100;
    b[7] = 0x100;
    assert_eq!(dot_u16(&a, &b), 16);
    assert_eq!(dot_ref(&a, &b), 16);
    assert_eq!(dot_u16(&a, &[0u16; BITS]), 0);
}

#[test]
fn dot_ref_matches_dot_u16() {
    let a = EncodedBits::random().0;
    let b = EncodedBits::random().0;
    assert_eq!(dot_ref(&a, &b), dot_u16(&a, &b));
}

#[test]
fn dot_bool_known_values() {
    let mut a = [0u64; 200];
    let mut b = [0u64; 200];
    a[0] = 0b1110;
    b[0] = 0b0111;
    a[199] = u64::MAX;
    b[199] = 1 << 63;
    assert_eq!(dot_bool(&a, &b), 3);
    assert_eq!(dot_bool(&[u64::MAX; 200], &[u64::MAX; 200]), 12800);
}

#[test]
fn dot_ring_multiplies_matrices() {
    let queries = [EncodedBits::random(), EncodedBits::random()];
    let entries = [
        EncodedBits::random(),
        EncodedBits::random(),
        EncodedBits::random(),
    ];
    let q: Vec<u16> = queries.iter().flat_map(|v| v.0.iter().copied()).collect();
    let d: Vec<u16> = entries.iter().flat_map(|v| v.0.iter().copied()).collect();
    let mut c = vec![0u16; 6];
    dot_ring(&mut c, &q, &d);
    for i in 0..3 {
        for j in 0..2 {
            assert_eq!(c[i * 2 + j], queries[j].dot(&entries[i]), "entry {i} query {j}");
        }
    }
}

#[test]
fn dot_ring_of_nothing() {
    let mut c: Vec<u16> = Vec::new();
    dot_ring(&mut c, &[], &[]);
    assert!(c.is_empty());
    let q = vec![1u16; BITS];
    dot_ring(&mut c, &q, &[]);
    assert!(c.is_empty());
}

#[test]
fn dot_field_reduces_modulo_the_prime() {
    let mut q = vec![0u16; BITS];
    let mut d = vec![0u16; BITS];
    q[0] = 0xffff;
    d[0] = 0xffff;
    let mut c = vec![0u16; 1];
    dot_field(&mut c, &q, &d);
    assert_eq!(c[0], 256);

    q[0] = 3;
    d[0] = 5;
    q[1] = 7;
    d[1] = 11;
    dot_field(&mut c, &q, &d);
    assert_eq!(c[0], 92);

    let q = vec![0xffffu16; BITS];
    let d = vec![0xffffu16; BITS];
    dot_field(&mut c, &q, &d);
    assert_eq!(c[0] as u64, (12800u64 * 0xffff * 0xffff) % 0xffef);
}

#[test]
fn dot_field_multiplies_matrices() {
    let queries = [EncodedBits::random(), EncodedBits::random()];
    let entries = [EncodedBits::random(), EncodedBits::random()];
    let q: Vec<u16> = queries.iter().flat_map(|v| v.0.iter().copied()).collect();
    let d: Vec<u16> = entries.iter().flat_map(|v| v.0.iter().copied()).collect();
    let mut c = vec![0u16; 4];
    dot_field(&mut c, &q, &d);
    for i in 0..2 {
        for j in 0..2 {
            let expected = queries[j]
                .0
                .iter()
                .zip(entries[i].0.iter())
                .map(|(&x, &y)| x as u64 * y as u64)
                .sum::<u64>()
                % 0xffef;
            assert_eq!(c[i * 2 + j] as u64, expected);
        }
    }
}

#[test]
fn engine_matches_reference() {
    let query = EncodedBits::random();
    let db: Vec<EncodedBits> = (0..5).map(|_| EncodedBits::random()).collect();
    let engine = DistanceEngine::new(&query);
    let mut out = vec![[0u16; 31]; db.len()];
    engine.batch_process(&mut out, &db);
    assert_eq!(out, reference::distances(&query, &db));
    for (i, entry) in db.iter().enumerate() {
        assert_eq!(out[i], engine.process(entry));
        assert_eq!(out[i], distances(&query, entry));
        for k in 0..31 {
            assert_eq!(out[i][k], query.rotated(k as i32 - 15).dot(entry));
        }
    }
}

#[test]
fn masks_engine_matches_reference() {
    let query = Bits::random();
    let db: Vec<Bits> = (0..5).map(|_| Bits::random()).collect();
    let engine = MasksEngine::new(&query);
    let mut out = vec![[0u16; 31]; db.len()];
    engine.batch_process(&mut out, &db);
    assert_eq!(out, reference::denominators(&query, &db));
    for (i, entry) in db.iter().enumerate() {
        assert_eq!(out[i], engine.process(entry));
        assert_eq!(out[i], denominators(&query, entry));
        for k in 0..31 {
            let rotated = query.rotated(k as i32 - 15);
            assert_eq!(out[i][k] as u32, rotated.bitand(entry).count_ones());
        }
    }
}

#[test]
fn batch_process_is_deterministic() {
    let query = EncodedBits::random();
    let db: Vec<EncodedBits> = (0..4).map(|_| EncodedBits::random()).collect();
    let engine = DistanceEngine::new(&query);
    let mut first = vec![[0u16; 31]; db.len()];
    let mut second = vec![[0xffffu16; 31]; db.len()];
    engine.batch_process(&mut first, &db);
    DistanceEngine::new(&query).batch_process(&mut second, &db);
    assert_eq!(first, second);
}

#[test]
fn batch_process_of_nothing() {
    let engine = DistanceEngine::new(&EncodedBits::random());
    let mut out: Vec<[u16; 31]> = Vec::new();
    engine.batch_process(&mut out, &[]);
    assert!(out.is_empty());
    assert!(reference::distances(&EncodedBits::default(), &[]).is_empty());
}

#[test]
fn decode_takes_half_the_difference() {
    let mut numerators = [0u16; 31];
    let mut denominators = [0u16; 31];
    numerators[4] = 4;
    denominators[4] = 10;
    assert_eq!(
        decode_distance(&numerators, &denominators),
        Some(Fraction { numerator: 3, denominator: 10 })
    );
    // A negative numerator: two more unequal than equal bits.
    numerators[4] = 0xfffe;
    assert_eq!(
        decode_distance(&numerators, &denominators),
        Some(Fraction { numerator: 6, denominator: 10 })
    );
}

#[test]
fn decode_takes_the_smallest_lane() {
    let mut numerators = [0u16; 31];
    let mut denominators = [0u16; 31];
    // 3/10, 1/4 and 2/8 in this order: the first of the two smallest stays.
    numerators[0] = 4;
    denominators[0] = 10;
    numerators[7] = 2;
    denominators[7] = 4;
    numerators[30] = 4;
    denominators[30] = 8;
    assert_eq!(
        decode_distance(&numerators, &denominators),
        Some(Fraction { numerator: 1, denominator: 4 })
    );
}

#[test]
fn decode_without_denominators_is_infinite() {
    assert_eq!(decode_distance(&[0u16; 31], &[0u16; 31]), None);
    assert_eq!(decode_distance(&[5u16; 31], &[0u16; 31]), None);
    assert_eq!(as_f64(decode_distance(&[0u16; 31], &[0u16; 31])), f64::INFINITY);
}

#[test]
fn fraction_hamming_counts() {
    let mut a = Template::default();
    let mut b = Template::default();
    a.mask.0[0] = 0b1111;
    b.mask.0[0] = 0b0111;
    a.pattern.0[0] = 0b1010;
    b.pattern.0[0] = 0b0110;
    assert_eq!(
        a.fraction_hamming(&b),
        Fraction { numerator: 1, denominator: 3 }
    );
    assert_eq!(
        a.fraction_hamming(&a),
        Fraction { numerator: 0, denominator: 4 }
    );
    assert_eq!(
        a.fraction_hamming(&Template::default()),
        Fraction { numerator: 0, denominator: 0 }
    );
}

#[test]
fn distance_to_itself_is_zero() {
    let mut template = Template::random();
    template.mask.0[0] |= 1;
    let distance = template.distance(&template).unwrap();
    assert_eq!(distance.numerator, 0);
    assert!(distance.denominator > 0);
    assert_eq!(Template::default().distance(&template), None);
}

#[test]
fn distance_finds_the_rotation() {
    let mut template = Template::random();
    template.mask = Bits([u64::MAX; 200]);
    let rotated = template.rotated(-9);
    assert_eq!(
        rotated.distance(&template),
        Some(Fraction { numerator: 0, denominator: 12800 })
    );
    assert_eq!(as_f64(rotated.distance(&template)), 0.0);
    assert!(as_f64(Some(rotated.fraction_hamming(&template))) > 0.3);
}

#[test]
fn closer_than_compares_fractions() {
    let third = Fraction { numerator: 1, denominator: 3 };
    let half = Fraction { numerator: 2, denominator: 4 };
    let other_half = Fraction { numerator: 1, denominator: 2 };
    assert!(third.closer_than(&half));
    assert!(!half.closer_than(&third));
    assert!(!half.closer_than(&other_half));
    assert!(!other_half.closer_than(&half));
    let large = Fraction { numerator: 32767, denominator: 65535 };
    let larger = Fraction { numerator: 32767, denominator: 65534 };
    assert!(large.closer_than(&larger));
    assert_eq!(Fraction::fold_min(None, half), Some(half));
    assert_eq!(Fraction::fold_min(Some(half), third), Some(third));
    assert_eq!(Fraction::fold_min(Some(half), other_half), Some(half));
    assert_eq!(
        Fraction::fold_min(Some(half), Fraction { numerator: 0, denominator: 0 }),
        Some(half)
    );
}

#[test]
fn distance_matches_the_float_reference() {
    for _ in 0..10 {
        let a = Template::random();
        let b = Template::random();
        assert_eq!(as_f64(a.distance(&b)), reference_distance(&a, &b));
        let direct = a.fraction_hamming(&b);
        assert!(direct.numerator <= direct.denominator);
        assert!(as_f64(a.distance(&b)) <= as_f64(Some(direct)));
    }
}

#[test]
fn every_kernel_agrees() {
    let a = EncodedBits::random().0;
    let b = EncodedBits::random().0;
    assert_eq!(sve2::dot_u16(&a, &b), dot_u16(&a, &b));
    let x = Bits::random().0;
    let y = Bits::random().0;
    assert_eq!(sve::dot_bool(&x, &y), dot_bool(&x, &y));
    assert_eq!(sve2::dot_bool(&x, &y), dot_bool(&x, &y));
    let mut mask = [0u64; 200];
    mask[3] = 0xf0;
    assert_eq!(sve2::dot_bool(&[u64::MAX; 200], &mask), 4);
    assert_eq!(sve::dot_bool(&[u64::MAX; 200], &mask), 4);
}
