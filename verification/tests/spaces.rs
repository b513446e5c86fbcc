use iter_num_tools::{arange, lin_space, log_space, ArangeImpl, LinSpace, LogSpace, Ratio};

fn collect_log(mut it: LogSpace<u64>) -> Vec<u64> {
    let mut v: Vec<u64> = Vec::new();
    while let Some(x) = it.next() {
        v.push(x);
    }
    v
}

fn collect_log_back(mut it: LogSpace<u64>) -> Vec<u64> {
    let mut v: Vec<u64> = Vec::new();
    while let Some(x) = it.next_back() {
        v.push(x);
    }
    v
}

fn collect_lin(mut it: LinSpace<Ratio>) -> Vec<Ratio> {
    let mut v: Vec<Ratio> = Vec::new();
    while let Some(x) = it.next() {
        v.push(x);
    }
    v
}

#[test]
fn test_log_space_inclusive() {
    let it = log_space(1u64..=1000, 4);
    assert_eq!(collect_log(it), vec![1, 10, 100, 1000]);
}

#[test]
fn test_log_space_exclusive() {
    let it = log_space(1u64..1000, 3);
    assert_eq!(collect_log(it), vec![1, 10, 100]);
}

#[test]
fn test_log_space_inclusive_rev() {
    let it = log_space(1u64..=1000, 4);
    assert_eq!(collect_log_back(it), vec![1000, 100, 10, 1]);
}

#[test]
fn test_log_space_exclusive_rev() {
    let it = log_space(1u64..1000, 3);
    assert_eq!(collect_log_back(it), vec![100, 10, 1]);
}

#[test]
fn test_log_space_exclusive_len() {
    let mut it = log_space(1u64..=1000, 4);
    let mut expected_len = 4;

    assert_eq!(it.size_hint(), (expected_len, Some(expected_len)));

    while expected_len > 0 {
        assert_eq!(it.len(), expected_len);
        it.next();
        expected_len -= 1;

        assert_eq!(it.len(), expected_len);
        it.next_back();
        expected_len -= 1;
    }

    assert_eq!(it.len(), expected_len);
}

#[test]
fn test_log_space_fused() {
    let mut it = log_space(1u64..=100, 2);
    assert_eq!(it.next(), Some(1));
    assert_eq!(it.next(), Some(100));
    assert_eq!(it.next(), None);
    assert_eq!(it.next(), None);
    assert_eq!(it.next_back(), None);
}

#[test]
fn test_arange() {
    let it = arange(
        Ratio::new(0, 1)..Ratio::new(2, 1),
        Ratio::new(1, 2),
    );
    assert_eq!(
        collect_lin(it),
        vec![
            Ratio::new(0, 1),
            Ratio::new(1, 2),
            Ratio::new(1, 1),
            Ratio::new(3, 2),
        ]
    );
}

#[test]
fn test_arange_estimate_matches_actual() {
    // The step size evenly divides the bound: the ceiling-division
    // estimate and the number of produced values agree.
    let norm = ArangeImpl::from(Ratio::new(0, 1)..Ratio::new(2, 1), Ratio::new(1, 2));
    assert_eq!(norm.steps, 4);

    let mut it = arange(
        Ratio::new(0, 1)..Ratio::new(2, 1),
        Ratio::new(1, 2),
    );
    assert_eq!(it.size_hint(), (4, Some(4)));
    let mut actual = 0;
    while let Some(_) = it.next() {
        actual += 1;
    }
    assert_eq!(actual, 4);

    // A bound the step does not divide evenly still gets an exact count
    // with exact fractions: ceil(1.75 / 0.5) == 4.
    let norm = ArangeImpl::from(Ratio::new(0, 1)..Ratio::new(7, 4), Ratio::new(1, 2));
    assert_eq!(norm.steps, 4);
}

#[test]
fn test_arange_empty() {
    let mut it = arange(
        Ratio::new(0, 1)..Ratio::new(0, 1),
        Ratio::new(1, 2),
    );
    assert_eq!(it.len(), 0);
    assert_eq!(it.next(), None);
}

#[test]
fn test_lin_space_exclusive() {
    // Half-open [0, 1) in 4 steps: 4 values, first 0, implied 5th is 1.
    let it = lin_space(Ratio::new(0, 1)..Ratio::new(1, 1), 4);
    assert_eq!(
        collect_lin(it),
        vec![
            Ratio::new(0, 1),
            Ratio::new(1, 4),
            Ratio::new(1, 2),
            Ratio::new(3, 4),
        ]
    );
}

#[test]
fn test_lin_space_inclusive() {
    // Closed [0, 1] in 5 steps: first value 0, last value exactly 1.
    let it = lin_space(Ratio::new(0, 1)..=Ratio::new(1, 1), 5);
    assert_eq!(
        collect_lin(it),
        vec![
            Ratio::new(0, 1),
            Ratio::new(1, 4),
            Ratio::new(1, 2),
            Ratio::new(3, 4),
            Ratio::new(1, 1),
        ]
    );
}

#[test]
fn test_lin_space_mixed_traversal() {
    // Mixing forward and backward steps covers the full traversal with no
    // duplicates or omissions, and the reported length stays exact.
    let mut it = lin_space(Ratio::new(0, 1)..=Ratio::new(4, 1), 5);
    let mut seen: Vec<Ratio> = Vec::new();
    assert_eq!(it.len(), 5);
    seen.push(it.next().unwrap());
    assert_eq!(it.len(), 4);
    seen.push(it.next_back().unwrap());
    assert_eq!(it.len(), 3);
    seen.push(it.next().unwrap());
    assert_eq!(it.len(), 2);
    seen.push(it.next_back().unwrap());
    assert_eq!(it.len(), 1);
    seen.push(it.next().unwrap());
    assert_eq!(it.len(), 0);
    assert_eq!(it.next(), None);
    assert_eq!(it.next_back(), None);
    seen.sort_by_key(|r| r.num / r.den);
    assert_eq!(
        seen,
        vec![
            Ratio::new(0, 1),
            Ratio::new(1, 1),
            Ratio::new(2, 1),
            Ratio::new(3, 1),
            Ratio::new(4, 1),
        ]
    );
}

#[test]
fn test_lin_space_u64() {
    let mut it = lin_space(20u64..=40, 5);
    let mut v: Vec<u64> = Vec::new();
    while let Some(x) = it.next() {
        v.push(x);
    }
    assert_eq!(v, vec![20, 25, 30, 35, 40]);
}
