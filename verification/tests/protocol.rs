use mpc_iris_code::protocol::{
    batch_length, complete_tuples, decode_checked, ended_inside_tuple, participant_tile,
    read_request, reconstruct, record_count, resolver_tile, sum_numerators, tile_bounds,
    tile_count, tuples_from_bytes, tuples_to_bytes, Action, Best, ProtocolError, Resolver,
    BATCH_SIZE, TUPLE_BYTES,
};
use mpc_iris_code::{
    encode, DistanceEngine, EncodedBits, Fraction, MasksEngine, Template,
};

fn as_f64(distance: Option<Fraction>) -> f64 {
    match distance {
        Some(f) => f.numerator as f64 / f.denominator as f64,
        None => f64::INFINITY,
    }
}

/// Runs one query against a database of `count` made-up entries, cut into
/// tiles, with three participants. Entry `i` has 100 compared bits in every
/// lane, of which `unequal(i)` differ.
fn run_made_up(count: usize, unequal: &dyn Fn(usize) -> u16) -> (Best, usize, usize) {
    let denominators: Vec<[u16; 31]> = vec![[100u16; 31]; count];
    let mut shares: Vec<Vec<[u16; 31]>> = vec![Vec::with_capacity(count); 3];
    for i in 0..count {
        let numerator = 100u16.wrapping_sub(2 * unequal(i));
        let first = (i as u16).wrapping_mul(40503);
        let second = (i as u16).wrapping_mul(12345).wrapping_add(77);
        shares[0].push([first; 31]);
        shares[1].push([second; 31]);
        shares[2].push([numerator.wrapping_sub(first).wrapping_sub(second); 31]);
    }

    let mut resolver = Resolver::new();
    let mut tiles = 0;
    for tile in 0..tile_count(count) {
        let (start, end) = tile_bounds(count, tile);
        let denom = denominators[start..end].to_vec();
        let parts: Vec<Vec<[u16; 31]>> = shares.iter().map(|s| s[start..end].to_vec()).collect();
        assert_eq!(resolver.step(&denom, &parts), Action::Continue);
        tiles += 1;
    }
    match resolver.step(&Vec::new(), &vec![Vec::new(); 3]) {
        Action::Report { best, seen } => (best, seen, tiles),
        Action::Continue => panic!("the query did not end"),
    }
}

#[test]
fn tile_boundary_stress() {
    for count in [1usize, 19_999, 20_000, 20_001, 60_000] {
        for closest in [0, count / 2, count - 1] {
            let unequal = |i: usize| if i == closest { 0 } else { 1 + (i % 40) as u16 };
            let (best, seen, tiles) = run_made_up(count, &unequal);
            assert_eq!(seen, count);
            assert_eq!(tiles, (count + 19_999) / 20_000);
            assert_eq!(best.index, closest, "count {count}");
            assert_eq!(
                best.distance,
                Some(Fraction { numerator: 0, denominator: 100 })
            );
        }
    }
}

#[test]
fn the_first_of_equal_entries_is_reported() {
    let (best, seen, _) = run_made_up(20_001, &|i| if i == 19_999 || i == 20_000 { 3 } else { 10 });
    assert_eq!(seen, 20_001);
    assert_eq!(best.index, 19_999);
    assert_eq!(
        best.distance,
        Some(Fraction { numerator: 3, denominator: 100 })
    );
}

#[test]
fn tiles_cover_every_entry_once() {
    for count in [0usize, 1, 19_999, 20_000, 20_001, 60_000] {
        let mut next = 0;
        for tile in 0..tile_count(count) {
            let (start, end) = tile_bounds(count, tile);
            assert_eq!(start, next);
            assert!(end > start && end - start <= BATCH_SIZE);
            next = end;
        }
        assert_eq!(next, count);
    }
    assert_eq!(tile_count(0), 0);
    assert_eq!(tile_count(1), 1);
    assert_eq!(tile_count(20_000), 1);
    assert_eq!(tile_count(20_001), 2);
    assert_eq!(tile_count(60_000), 3);
    assert_eq!(tile_bounds(20_001, 1), (20_000, 20_001));
    assert_eq!(tile_bounds(60_000, 2), (40_000, 60_000));
}

#[test]
fn round_trip_through_participants_and_resolver() {
    let db: Vec<Template> = (0..12).map(|_| Template::random()).collect();
    let masks: Vec<_> = db.iter().map(|t| t.mask).collect();
    let mut files: Vec<Vec<EncodedBits>> = vec![Vec::new(); 3];
    for template in db.iter() {
        let shares = encode(template).share(3);
        for (file, share) in files.iter_mut().zip(shares) {
            file.push(share);
        }
    }

    for query_index in [0usize, 5, 11] {
        // A rotated copy of an entry, with some bits flipped.
        let mut query = db[query_index].rotated(4);
        query.pattern.0[17] ^= 0xff;

        // Participants answer with bytes; the resolver reads them back.
        let request = query.to_bytes();
        let mut batches = Vec::new();
        for file in files.iter() {
            let template = read_request(&request).unwrap();
            assert_eq!(template, query);
            let engine = DistanceEngine::new(&encode(&template));
            let reply = participant_tile(&engine, file);
            assert_eq!(reply.len(), db.len() * TUPLE_BYTES);
            batches.push(tuples_from_bytes(&reply));
        }
        let denominators = resolver_tile(&MasksEngine::new(&query.mask), &masks);

        let mut resolver = Resolver::new();
        assert_eq!(resolver.step(&denominators, &batches), Action::Continue);
        let report = resolver.step(&Vec::new(), &vec![Vec::new(); 3]);

        // The same search in the clear.
        let mut expected = Best { index: usize::MAX, distance: None };
        for (i, entry) in db.iter().enumerate() {
            let distance = query.distance(entry);
            if as_f64(distance) < as_f64(expected.distance) {
                expected = Best { index: i, distance };
            }
        }
        assert_eq!(report, Action::Report { best: expected, seen: db.len() });
        assert_eq!(expected.index, query_index);
        assert!(as_f64(expected.distance) < 0.05);
    }
}

#[test]
fn reconstruct_matches_the_clear_distance() {
    let query = Template::random();
    let db: Vec<Template> = (0..4).map(|_| Template::random()).collect();
    let engine = DistanceEngine::new(&encode(&query));
    let mut batches: Vec<Vec<[u16; 31]>> = vec![Vec::new(); 3];
    for entry in db.iter() {
        for (batch, share) in batches.iter_mut().zip(encode(entry).share(3)) {
            batch.push(engine.process(&share));
        }
    }
    let masks: Vec<_> = db.iter().map(|t| t.mask).collect();
    let denominators = resolver_tile(&MasksEngine::new(&query.mask), &masks);
    let distances = reconstruct(&denominators, &batches, db.len());
    for (i, entry) in db.iter().enumerate() {
        assert_eq!(distances[i], query.distance(entry));
        let numerator = sum_numerators(&batches, i);
        assert_eq!(decode_checked(&numerator, &denominators[i]), Ok(distances[i]));
    }
}

#[test]
fn sum_numerators_wraps() {
    let shares = vec![
        vec![[0xffffu16; 31], [1u16; 31]],
        vec![[2u16; 31], [2u16; 31]],
        vec![[0x8000u16; 31], [3u16; 31]],
    ];
    assert_eq!(sum_numerators(&shares, 0), [0x8001u16; 31]);
    assert_eq!(sum_numerators(&shares, 1), [6u16; 31]);
    assert_eq!(sum_numerators(&Vec::new(), 5), [0u16; 31]);
}

#[test]
fn batches_are_cut_to_the_shortest() {
    let denominators = vec![[10u16; 31]; 5];
    let shares = vec![vec![[4u16; 31]; 7], vec![[0u16; 31]; 3], vec![[0u16; 31]; 4]];
    assert_eq!(batch_length(&denominators, &shares), 3);
    assert_eq!(batch_length(&denominators, &Vec::new()), 5);
    assert_eq!(batch_length(&Vec::new(), &shares), 0);

    let mut resolver = Resolver::new();
    assert_eq!(resolver.step(&denominators, &shares), Action::Continue);
    assert_eq!(resolver.seen, 3);
    assert_eq!(resolver.best.index, 0);
    assert_eq!(
        resolver.best.distance,
        Some(Fraction { numerator: 3, denominator: 10 })
    );
}

#[test]
fn an_empty_batch_ends_the_query() {
    let mut resolver = Resolver::new();
    assert_eq!(resolver.seen, 0);
    assert_eq!(resolver.best, Best { index: usize::MAX, distance: None });
    let action = resolver.step(&Vec::new(), &vec![vec![[0u16; 31]; 2]]);
    assert_eq!(
        action,
        Action::Report {
            best: Best { index: usize::MAX, distance: None },
            seen: 0
        }
    );
}

#[test]
fn absorb_keeps_the_first_smallest() {
    let f = |n: u16, d: u16| Some(Fraction { numerator: n, denominator: d });
    let mut resolver = Resolver::new();
    resolver.absorb(&vec![None, f(5, 10), f(1, 2), f(1, 4)]);
    assert_eq!(resolver.seen, 4);
    assert_eq!(resolver.best, Best { index: 3, distance: f(1, 4) });
    resolver.absorb(&vec![f(2, 8), None, f(0, 7)]);
    assert_eq!(resolver.seen, 7);
    assert_eq!(resolver.best, Best { index: 6, distance: f(0, 7) });
    resolver.absorb(&Vec::new());
    assert_eq!(resolver.seen, 7);
}

#[test]
fn whole_tuples_of_a_short_batch() {
    assert_eq!(complete_tuples(20_000, 0), 20_000);
    assert_eq!(complete_tuples(20_000, 62), 19_999);
    assert_eq!(complete_tuples(20_000, 61), 19_999);
    assert_eq!(complete_tuples(20_000, 63), 19_998);
    assert_eq!(complete_tuples(20_000, 20_000 * 62), 0);
    assert_eq!(complete_tuples(1, 1), 0);
    assert_eq!(complete_tuples(0, 0), 0);
    assert!(!ended_inside_tuple(0));
    assert!(!ended_inside_tuple(124));
    assert!(ended_inside_tuple(61));
    assert!(ended_inside_tuple(63));
}

#[test]
fn records_of_a_file() {
    assert_eq!(record_count(0, 1600), Some(0));
    assert_eq!(record_count(4800, 1600), Some(3));
    assert_eq!(record_count(4801, 1600), None);
    assert_eq!(record_count(25_600 * 2, 25_600), Some(2));
    assert_eq!(record_count(25_599, 25_600), None);
}

#[test]
fn tuples_travel_as_little_endian_bytes() {
    let mut first = [0u16; 31];
    first[0] = 0x0201;
    first[30] = 0xff00;
    let second = [0x1234u16; 31];
    let bytes = tuples_to_bytes(&[first, second]);
    assert_eq!(bytes.len(), 124);
    assert_eq!(&bytes[..4], &[1, 2, 0, 0]);
    assert_eq!(&bytes[60..64], &[0, 0xff, 0x34, 0x12]);
    assert_eq!(tuples_from_bytes(&bytes), vec![first, second]);
    assert!(tuples_to_bytes(&[]).is_empty());
}

#[test]
fn a_partial_tuple_is_left_out() {
    let bytes = tuples_to_bytes(&[[7u16; 31], [9u16; 31]]);
    assert_eq!(tuples_from_bytes(&bytes[..123]), vec![[7u16; 31]]);
    assert_eq!(tuples_from_bytes(&bytes[..62]), vec![[7u16; 31]]);
    assert!(tuples_from_bytes(&bytes[..61]).is_empty());
    assert!(tuples_from_bytes(&[]).is_empty());
}

#[test]
fn a_short_request_is_refused() {
    let template = Template::random();
    let bytes = template.to_bytes();
    assert_eq!(read_request(&bytes), Ok(template));
    assert_eq!(read_request(&bytes[..3199]), Err(ProtocolError::ShortRequest));
    assert_eq!(read_request(&[]), Err(ProtocolError::ShortRequest));
    let mut long = bytes.to_vec();
    long.push(0);
    assert_eq!(read_request(&long), Err(ProtocolError::ShortRequest));
}

#[test]
fn request_is_pattern_then_mask() {
    let template = Template::random();
    let bytes = template.to_bytes();
    assert_eq!(&bytes[..1600], &template.pattern.to_bytes()[..]);
    assert_eq!(&bytes[1600..], &template.mask.to_bytes()[..]);
    assert_eq!(Template::from_bytes(&bytes), template);
}

#[test]
fn inconsistent_lanes_are_reported() {
    let mut numerators = [0u16; 31];
    let mut denominators = [0u16; 31];
    numerators[3] = 4;
    denominators[3] = 10;
    assert_eq!(
        decode_checked(&numerators, &denominators),
        Ok(Some(Fraction { numerator: 3, denominator: 10 }))
    );
    // An odd difference.
    numerators[9] = 5;
    denominators[9] = 10;
    assert_eq!(
        decode_checked(&numerators, &denominators),
        Err(ProtocolError::Inconsistent { lane: 9 })
    );
    // More unequal bits than compared bits, in an earlier lane.
    numerators[2] = 12;
    denominators[2] = 10;
    assert_eq!(
        decode_checked(&numerators, &denominators),
        Err(ProtocolError::Inconsistent { lane: 2 })
    );
    assert_eq!(decode_checked(&[0u16; 31], &[0u16; 31]), Ok(None));
}
