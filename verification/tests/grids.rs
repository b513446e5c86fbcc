use iter_num_tools::{grid, grid3, Grid2, Grid3, Lerp, LerpPrim, Ratio};

fn collect2(mut g: Grid2<Ratio>) -> Vec<(Ratio, Ratio)> {
    let mut v: Vec<(Ratio, Ratio)> = Vec::new();
    while let Some(p) = g.next() {
        v.push(p);
    }
    v
}

fn collect3(mut g: Grid3<Ratio>) -> Vec<(Ratio, Ratio, Ratio)> {
    let mut v: Vec<(Ratio, Ratio, Ratio)> = Vec::new();
    while let Some(p) = g.next() {
        v.push(p);
    }
    v
}

fn half(n: i64) -> Ratio {
    Ratio::new(n, 2)
}

#[test]
fn test_grid_row_major() {
    // Axis one runs over [0, 1) by 1/2 (2 values, slowest), axis two over
    // [0, 2) by 1/2 (4 values, fastest): all 8 combinations, row-major.
    let g = grid(
        (Ratio::new(0, 1), Ratio::new(0, 1))..(Ratio::new(1, 1), Ratio::new(2, 1)),
        Ratio::new(1, 2),
    );
    assert_eq!(g.len(), 8);
    let got = collect2(g);
    let expected = vec![
        (half(0), half(0)),
        (half(0), half(1)),
        (half(0), half(2)),
        (half(0), half(3)),
        (half(1), half(0)),
        (half(1), half(1)),
        (half(1), half(2)),
        (half(1), half(3)),
    ];
    assert_eq!(got, expected);
}

#[test]
fn test_grid_count_is_product() {
    let g = grid(
        (Ratio::new(0, 1), Ratio::new(0, 1))..(Ratio::new(3, 1), Ratio::new(2, 1)),
        Ratio::new(1, 1),
    );
    assert_eq!(g.size_hint(), (6, Some(6)));
    assert_eq!(collect2(g).len(), 3 * 2);
}

#[test]
fn test_grid3_flat_tuples() {
    // 2 x 2 x 2 combinations as flat 3-tuples, first axis slowest.
    let g = grid3(
        (Ratio::new(0, 1), Ratio::new(0, 1), Ratio::new(0, 1))
            ..(Ratio::new(1, 1), Ratio::new(1, 1), Ratio::new(1, 1)),
        Ratio::new(1, 2),
    );
    assert_eq!(g.len(), 8);
    let got = collect3(g);
    let expected = vec![
        (half(0), half(0), half(0)),
        (half(0), half(0), half(1)),
        (half(0), half(1), half(0)),
        (half(0), half(1), half(1)),
        (half(1), half(0), half(0)),
        (half(1), half(0), half(1)),
        (half(1), half(1), half(0)),
        (half(1), half(1), half(1)),
    ];
    assert_eq!(got, expected);
}

#[test]
fn test_grid3_matches_nested_2d_order() {
    // The 3D grid is the 2D composition applied twice and flattened:
    // same count law and same row-major order, just flat tuples.
    let g3 = grid3(
        (Ratio::new(0, 1), Ratio::new(0, 1), Ratio::new(0, 1))
            ..(Ratio::new(1, 1), Ratio::new(2, 1), Ratio::new(1, 1)),
        Ratio::new(1, 2),
    );
    assert_eq!(g3.len(), 2 * 4 * 2);
    let flat = collect3(g3);

    let outer = grid(
        (Ratio::new(0, 1), Ratio::new(0, 1))..(Ratio::new(1, 1), Ratio::new(2, 1)),
        Ratio::new(1, 2),
    );
    let mut nested: Vec<(Ratio, Ratio, Ratio)> = Vec::new();
    for (a, b) in collect2(outer) {
        for c in [half(0), half(1)] {
            nested.push((a, b, c));
        }
    }
    assert_eq!(flat, nested);
}

#[test]
fn test_lerp_endpoints() {
    // The two-point map sends x0 to y0 and x1 to y1, and interpolates
    // linearly in between.
    let l = Lerp::new(
        Ratio::new(0, 1)..=Ratio::new(2, 1),
        Ratio::new(10, 1)..=Ratio::new(20, 1),
    );
    assert_eq!(l.lerp(Ratio::new(0, 1)), Ratio::new(10, 1));
    assert_eq!(l.lerp(Ratio::new(1, 1)), Ratio::new(15, 1));
    assert_eq!(l.call(Ratio::new(2, 1)), Ratio::new(20, 1));
}

#[test]
fn test_lerp_prim_counts() {
    let l = LerpPrim::new_usize(0..=4, Ratio::new(0, 1)..=Ratio::new(1, 1));
    assert_eq!(l.call(0), Ratio::new(0, 1));
    assert_eq!(l.call(1), Ratio::new(1, 4));
    assert_eq!(l.call(4), Ratio::new(1, 1));
}
