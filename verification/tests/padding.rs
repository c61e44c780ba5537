use anytls::padding::{PaddingError, PaddingPolicy, PaddingScheme, DEFAULT_PADDING_SCHEME};

fn chunks(policy: &PaddingPolicy) -> Vec<(usize, usize, bool)> {
    let PaddingPolicy::Chunks(chunks) = policy;
    chunks.clone()
}

fn policy(text: &str) -> Vec<(usize, usize, bool)> {
    chunks(&PaddingPolicy::parse(text).unwrap())
}

#[test]
fn policies_are_read() {
    assert_eq!(policy("30-30"), vec![(30, 30, false)]);
    assert_eq!(policy("9-9,500-1000"), vec![(9, 9, false), (500, 1000, false)]);
    assert_eq!(
        policy("400-500,c,500-1000,c,500-1000"),
        vec![(400, 500, true), (500, 1000, true), (500, 1000, false)]
    );
}

#[test]
fn policies_with_white_space() {
    assert_eq!(policy("  1 - 2 ,\tc , 3-4\r"), vec![(1, 2, true), (3, 4, false)]);
    assert_eq!(policy("+5-+6"), vec![(5, 6, false)]);
}

#[test]
fn parts_without_a_dash_are_passed_over() {
    assert_eq!(policy(""), vec![]);
    assert_eq!(policy("c"), vec![]);
    assert_eq!(policy("c,c,1-2"), vec![(1, 2, false)]);
    assert_eq!(policy("x,1-2"), vec![(1, 2, false)]);
    assert_eq!(policy("1-2,c,c,3-4"), vec![(1, 2, true), (3, 4, false)]);
}

#[test]
fn bounds_may_be_out_of_order() {
    assert_eq!(policy("9-1"), vec![(9, 1, false)]);
    assert!(!PaddingPolicy::parse("1-2,9-1").unwrap().is_ordered());
    assert!(PaddingPolicy::parse("1-2,9-9").unwrap().is_ordered());
    assert!(PaddingPolicy::parse("").unwrap().is_ordered());
}

#[test]
fn bad_bounds() {
    assert_eq!(PaddingPolicy::parse("a-1").unwrap_err(), PaddingError::InvalidMin);
    assert_eq!(PaddingPolicy::parse("-1").unwrap_err(), PaddingError::InvalidMin);
    assert_eq!(PaddingPolicy::parse("1-b").unwrap_err(), PaddingError::InvalidMax);
    assert_eq!(PaddingPolicy::parse("1-").unwrap_err(), PaddingError::InvalidMax);
    assert_eq!(PaddingPolicy::parse("1-2-3").unwrap_err(), PaddingError::InvalidMax);
    assert_eq!(
        PaddingPolicy::parse("1-2,99999999999999999999-3").unwrap_err(),
        PaddingError::InvalidMin
    );
}

#[test]
fn size_bounds_of_a_chunk() {
    assert_eq!(PaddingPolicy::size_bounds((5, 9, true), 0), None);
    assert_eq!(PaddingPolicy::size_bounds((5, 9, false), 0), Some((5, 9)));
    assert_eq!(PaddingPolicy::size_bounds((5, 9, false), 5), Some((5, 5)));
    assert_eq!(PaddingPolicy::size_bounds((5, 9, false), 3), Some((3, 3)));
    assert_eq!(PaddingPolicy::size_bounds((5, 9, false), 7), Some((5, 7)));
    assert_eq!(PaddingPolicy::size_bounds((5, 9, false), 100), Some((5, 9)));
}

#[test]
fn cutting_with_fixed_sizes() {
    let three = PaddingPolicy::Chunks(vec![(10, 10, false), (20, 20, false), (5, 5, false)]);
    assert_eq!(three.apply(100), vec![10, 20, 5, 65]);
    assert_eq!(three.apply(30), vec![10, 20, 5]);
    assert_eq!(three.apply(35), vec![10, 20, 5]);
    assert_eq!(three.apply(4), vec![4, 20]);
    assert_eq!(three.apply(0), vec![10]);
    let skipping = PaddingPolicy::Chunks(vec![(10, 10, false), (20, 20, true)]);
    assert_eq!(skipping.apply(10), vec![10]);
    assert_eq!(PaddingPolicy::Chunks(vec![]).apply(3), vec![3]);
    assert_eq!(PaddingPolicy::Chunks(vec![]).apply(0), Vec::<usize>::new());
}

#[test]
fn cutting_draws_within_the_bounds() {
    let policy = PaddingPolicy::parse("400-500,c,500-1000,c,500-1000").unwrap();
    let mut seen: Vec<usize> = Vec::new();
    for _ in 0..200 {
        let sizes: Vec<usize> = policy.apply(5000);
        assert_eq!(sizes.len(), 4);
        assert!(400 <= sizes[0] && sizes[0] <= 500);
        assert!(500 <= sizes[1] && sizes[1] <= 1000);
        assert!(500 <= sizes[2] && sizes[2] <= 1000);
        assert_eq!(sizes.iter().sum::<usize>(), 5000);
        seen.push(sizes[0]);
    }
    assert!(seen.iter().any(|n| *n != seen[0]));
}

#[test]
fn a_cut_loses_nothing() {
    let policy = PaddingPolicy::parse("3-7,2-4,c,1-9").unwrap();
    for payload in 0..40usize {
        let sizes: Vec<usize> = policy.apply(payload);
        let all: usize = sizes.iter().sum();
        let but_last: usize = all - sizes.last().copied().unwrap_or(0);
        assert!(all == payload || but_last == payload);
        assert!(sizes.len() <= 4);
    }
}

#[test]
fn the_default_scheme() {
    let scheme = PaddingScheme::get_default();
    assert_eq!(scheme.stop_at, 8);
    assert_eq!(scheme.policies.len(), 8);
    assert_eq!(chunks(&scheme.policies[&0]), vec![(30, 30, false)]);
    assert_eq!(chunks(&scheme.policies[&1]), vec![(100, 400, false)]);
    assert_eq!(
        chunks(&scheme.policies[&2]),
        vec![
            (400, 500, true),
            (500, 1000, true),
            (500, 1000, true),
            (500, 1000, true),
            (500, 1000, false)
        ]
    );
    assert_eq!(chunks(&scheme.policies[&3]), vec![(9, 9, false), (500, 1000, false)]);
    for packet in 4..8u8 {
        assert_eq!(chunks(&scheme.policies[&packet]), vec![(500, 1000, false)]);
    }
    assert_eq!(
        scheme.hash,
        "d21190768124def9dced54773b448108fdf5e332e0c2dc0be1d93436760db401"
    );
}

#[test]
fn the_default_scheme_is_its_text() {
    let lines: Vec<&str> = DEFAULT_PADDING_SCHEME.lines().collect();
    assert_eq!(lines.len(), 9);
    assert_eq!(lines[0], "stop=8");
    assert_eq!(lines[3], "2=400-500,c,500-1000,c,500-1000,c,500-1000,c,500-1000");
    assert_eq!(lines[8], "7=500-1000");
}

#[test]
fn schemes_are_read() {
    let scheme = PaddingScheme::parse("\r\n stop = 3 \r\n\n0=1-2\n 255 = 4-4,c \nnonsense\nx=1-b\n256=z-1\n0=7-8")
        .unwrap();
    assert_eq!(scheme.stop_at, 3);
    assert_eq!(scheme.policies.len(), 2);
    assert_eq!(chunks(&scheme.policies[&0]), vec![(7, 8, false)]);
    assert_eq!(chunks(&scheme.policies[&255]), vec![(4, 4, true)]);
}

#[test]
fn an_empty_scheme() {
    let scheme = PaddingScheme::parse("").unwrap();
    assert_eq!(scheme.stop_at, 0);
    assert!(scheme.policies.is_empty());
    assert_eq!(
        scheme.hash,
        "e3b0c44298fc1c149afbf4c8996fb92427ae41e4649b934ca495991b7852b855"
    );
}

#[test]
fn bad_schemes() {
    assert_eq!(PaddingScheme::parse("stop=256").unwrap_err(), PaddingError::InvalidStop);
    assert_eq!(PaddingScheme::parse("stop=").unwrap_err(), PaddingError::InvalidStop);
    assert_eq!(PaddingScheme::parse("0=x-1").unwrap_err(), PaddingError::InvalidMin);
    assert_eq!(PaddingScheme::parse("0=1-x").unwrap_err(), PaddingError::InvalidMax);
    assert_eq!(
        PaddingScheme::parse("0=1-x\nstop=no").unwrap_err(),
        PaddingError::InvalidMax
    );
}

#[test]
fn the_hash_of_a_scheme() {
    assert_eq!(
        PaddingScheme::compute_hash("stop=3"),
        "89c57159f2d56241ee4f97a69965802c0bea96729d57ab2556893f8d0e9b326f"
    );
}

#[test]
fn copies_of_a_scheme() {
    let scheme = PaddingScheme::parse("stop=4\n1=2-3,c").unwrap();
    let copy = scheme.copy();
    assert_eq!(copy.stop_at, 4);
    assert_eq!(copy.hash, scheme.hash);
    assert_eq!(copy.policies.len(), 1);
    assert_eq!(chunks(&copy.policies[&1]), vec![(2, 3, true)]);
}

#[test]
fn cutting_by_draws() {
    let policy = PaddingPolicy::parse("3-7,2-4,c,1-9").unwrap();
    assert_eq!(policy.apply_drawn(20, &[5, 2, 9]), Some(vec![5, 2, 9, 4]));
    assert_eq!(policy.apply_drawn(20, &[7, 4, 9, 100]), Some(vec![7, 4, 9]));
    assert_eq!(policy.apply_drawn(5, &[5, 1]), Some(vec![5]));
    assert_eq!(policy.apply_drawn(6, &[4, 2, 8]), Some(vec![4, 2, 8]));
    assert_eq!(policy.apply_drawn(2, &[2]), Some(vec![2]));
    assert_eq!(policy.apply_drawn(0, &[6]), Some(vec![6]));
    assert_eq!(policy.apply_drawn(20, &[8, 2, 9]), None);
    assert_eq!(policy.apply_drawn(20, &[5, 2]), None);
}

#[test]
fn messages_about_schemes() {
    assert_eq!(PaddingError::InvalidMin.message(), "invalid padding min");
    assert_eq!(PaddingError::InvalidMax.message(), "invalid padding max");
    assert_eq!(PaddingError::InvalidStop.message(), "invalid stop value");
}
