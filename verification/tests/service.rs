use section_core::name::Name;
use section_core::service::{chunk_holder_adults, distance, CHUNK_COPY_COUNT};

fn s_names(count: usize, seed: u32) -> Vec<Name> {
    let mut seed = seed;
    (0..count)
        .map(|_| {
            let mut bytes = [0u8; 32];
            for b in bytes.iter_mut() {
                seed = seed.wrapping_mul(1103515245).wrapping_add(12345);
                *b = (seed >> 16) as u8;
            }
            Name { bytes }
        })
        .collect()
}

#[test]
fn the_adults_closest_to_a_chunk_keep_it() {
    let adults = s_names(20, 7);
    let full: Vec<Name> = adults.iter().step_by(3).cloned().collect();
    for target in s_names(10, 99) {
        let holders = chunk_holder_adults(&target, &adults, &full);

        let mut expected: Vec<xor_name::XorName> =
            adults.iter().filter(|n| !full.contains(n)).map(|n| xor_name::XorName(n.bytes)).collect();
        let pivot = xor_name::XorName(target.bytes);
        expected.sort_by(|lhs, rhs| pivot.cmp_distance(lhs, rhs));
        expected.truncate(CHUNK_COPY_COUNT);
        let expected: Vec<Name> = expected.iter().map(|n| Name { bytes: n.0 }).collect();
        assert_eq!(holders, expected);
    }
}

#[test]
fn fewer_adults_than_copies_all_keep_the_chunk() {
    let adults = s_names(3, 1);
    let target = adults[1];
    let holders = chunk_holder_adults(&target, &adults, &Vec::new());
    assert_eq!(holders.len(), 3);
    assert_eq!(holders[0], target);
    // an adult that is named twice keeps the chunk once
    let doubled: Vec<Name> = adults.iter().chain(adults.iter()).cloned().collect();
    assert_eq!(chunk_holder_adults(&target, &doubled, &Vec::new()), holders);
    assert!(chunk_holder_adults(&target, &adults, &adults).is_empty());
    assert!(chunk_holder_adults(&target, &Vec::new(), &Vec::new()).is_empty());
    assert_eq!(distance(&target, &target), vec![0u8; 32]);
    assert_eq!(distance(&Name { bytes: [0xf0; 32] }, &Name { bytes: [0x3c; 32] }), vec![0xcc; 32]);
    assert_eq!(CHUNK_COPY_COUNT, 4);
}
