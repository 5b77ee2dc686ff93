use life::{clip, Neighborhood};

fn collect(x: (usize, usize), rx: (usize, usize)) -> Vec<(usize, usize)> {
    let mut n = Neighborhood::new(x, rx);
    let mut out = Vec::new();
    while let Some(p) = n.next() {
        out.push(p);
    }
    assert_eq!(n.next(), None);
    out
}

#[test]
fn interior_cell_has_eight_neighbors() {
    assert_eq!(
        collect((1, 1), (3, 3)),
        vec![(0, 0), (0, 1), (0, 2), (1, 0), (1, 2), (2, 0), (2, 1), (2, 2)]
    );
}

#[test]
fn corner_cell_has_three_neighbors() {
    assert_eq!(collect((0, 0), (3, 3)), vec![(0, 1), (1, 0), (1, 1)]);
    assert_eq!(collect((2, 2), (3, 3)), vec![(1, 1), (1, 2), (2, 1)]);
}

#[test]
fn edge_cell_has_five_neighbors() {
    assert_eq!(collect((0, 1), (3, 3)), vec![(0, 0), (0, 2), (1, 0), (1, 1), (1, 2)]);
    assert_eq!(collect((2, 3), (4, 4)), vec![(1, 2), (1, 3), (2, 2), (3, 2), (3, 3)]);
}

#[test]
fn narrow_grids_have_fewer_neighbors() {
    assert_eq!(collect((0, 0), (1, 1)), vec![]);
    assert_eq!(collect((0, 1), (1, 3)), vec![(0, 0), (0, 2)]);
    assert_eq!(collect((0, 0), (1, 2)), vec![(0, 1)]);
}

#[test]
fn neighbor_counts_stay_between_three_and_eight() {
    for rows in 2..6 {
        for cols in 2..6 {
            for r in 0..rows {
                for c in 0..cols {
                    let ns = collect((r, c), (rows, cols));
                    assert!(ns.len() >= 3 && ns.len() <= 8);
                    for (i, &(nr, nc)) in ns.iter().enumerate() {
                        assert!(nr < rows && nc < cols);
                        assert!((nr, nc) != (r, c));
                        assert!(nr + 1 >= r && nr <= r + 1 && nc + 1 >= c && nc <= c + 1);
                        assert!(!ns[i + 1..].contains(&(nr, nc)));
                    }
                }
            }
        }
    }
}

#[test]
fn clip_keeps_in_range_offsets() {
    assert_eq!(clip(0, 3, -1), None);
    assert_eq!(clip(0, 3, 0), Some(0));
    assert_eq!(clip(0, 3, 1), Some(1));
    assert_eq!(clip(2, 3, 1), None);
    assert_eq!(clip(2, 3, -1), Some(1));
    assert_eq!(clip(5, 10, 1), Some(6));
}
