use life::{World, WorldError};

fn world_from(rows: &[&str]) -> World {
    let mut w = World::new((rows.len(), rows[0].len())).unwrap();
    for (r, line) in rows.iter().enumerate() {
        for (c, ch) in line.chars().enumerate() {
            w.set(r, c, ch == '#');
        }
    }
    w
}

fn picture(w: &World) -> Vec<String> {
    let (rows, cols) = w.dims();
    let mut out = Vec::new();
    for r in 0..rows {
        let mut line = String::new();
        for c in 0..cols {
            line.push(if w.get(r, c) { '#' } else { '.' });
        }
        out.push(line);
    }
    out
}

#[test]
fn new_world_is_empty_with_given_dims() {
    let w = World::new((3, 5)).unwrap();
    assert_eq!(w.dims(), (3, 5));
    assert!(!w.edge_inversion());
    assert!(w.cells().iter().all(|&(_, _, alive)| !alive));
}

#[test]
fn zero_dimensions_are_rejected() {
    assert!(matches!(World::new((0, 4)), Err(WorldError::InvalidDimensions)));
    assert!(matches!(World::new((4, 0)), Err(WorldError::InvalidDimensions)));
    assert!(matches!(World::new((0, 0)), Err(WorldError::InvalidDimensions)));
    assert!(matches!(World::random((0, 3)), Err(WorldError::InvalidDimensions)));
}

#[test]
fn random_world_has_given_dims() {
    let w = World::random((7, 4)).unwrap();
    assert_eq!(w.dims(), (7, 4));
    assert_eq!(w.cells().len(), 28);
    assert!(!w.edge_inversion());
}

#[test]
fn cells_cover_grid_once_in_row_major_order() {
    let w = world_from(&["#..", ".#."]);
    let cells = w.cells();
    assert_eq!(
        cells,
        vec![
            (0, 0, true),
            (0, 1, false),
            (0, 2, false),
            (1, 0, false),
            (1, 1, true),
            (1, 2, false),
        ]
    );
    let w = World::random((4, 6)).unwrap();
    let cells = w.cells();
    assert_eq!(cells.len(), 24);
    for (k, &(r, c, alive)) in cells.iter().enumerate() {
        assert!(r < 4 && c < 6);
        assert_eq!(k, r * 6 + c);
        assert_eq!(alive, w.get(r, c));
    }
}

#[test]
fn empty_grid_stays_empty() {
    let mut w = World::new((3, 3)).unwrap();
    w.update();
    assert_eq!(picture(&w), vec!["...", "...", "..."]);
}

#[test]
fn lone_cell_dies() {
    let mut w = world_from(&["...", ".#.", "..."]);
    w.update();
    assert_eq!(picture(&w), vec!["...", "...", "..."]);
}

#[test]
fn horizontal_triple_turns_vertical() {
    let mut w = world_from(&["...", "###", "..."]);
    w.update();
    assert_eq!(picture(&w), vec![".#.", ".#.", ".#."]);
    w.update();
    assert_eq!(picture(&w), vec!["...", "###", "..."]);
}

#[test]
fn block_is_still_life() {
    let start = ["....", ".##.", ".##.", "...."];
    let mut w = world_from(&start);
    w.update();
    assert_eq!(picture(&w), start.to_vec());
    let start = ["......", "......", "..##..", "..##..", "......", "......"];
    let mut w = world_from(&start);
    w.update();
    assert_eq!(picture(&w), start.to_vec());
}

#[test]
fn crowded_cell_dies_and_birth_needs_three() {
    let mut w = world_from(&["###", "###", "..."]);
    w.update();
    assert_eq!(picture(&w), vec!["#.#", "#.#", ".#."]);
}

#[test]
fn edge_inversion_flips_border_but_not_corners() {
    let mut w = World::new((3, 3)).unwrap();
    w.set_edge_inversion(true);
    assert!(w.edge_inversion());
    w.update();
    assert_eq!(picture(&w), vec![".#.", "#.#", ".#."]);
}

#[test]
fn edge_inversion_on_wider_grid() {
    let mut w = World::new((4, 5)).unwrap();
    w.set_edge_inversion(true);
    w.update();
    assert_eq!(picture(&w), vec![".###.", "#...#", "#...#", ".###."]);
}

#[test]
fn edge_inversion_on_single_row_and_cell() {
    let mut w = World::new((1, 4)).unwrap();
    w.set_edge_inversion(true);
    w.update();
    assert_eq!(picture(&w), vec!["#..#"]);
    let mut w = World::new((1, 1)).unwrap();
    w.set_edge_inversion(true);
    w.update();
    assert_eq!(picture(&w), vec!["."]);
}

#[test]
fn invert_border_twice_restores_grid() {
    let start = ["#..#.", ".##..", "#...#", "..#.#"];
    let mut w = world_from(&start);
    w.invert_border();
    assert_eq!(picture(&w), vec!["###..", "###.#", ".....", ".#.##"]);
    w.invert_border();
    assert_eq!(picture(&w), start.to_vec());
}

#[test]
fn same_start_gives_same_generations() {
    let start = [".#....", "..#...", "###...", "......", "......", "......"];
    let mut a = world_from(&start);
    let mut b = world_from(&start);
    for _ in 0..12 {
        let ga = a.next_generation();
        let gb = b.next_generation();
        assert_eq!(ga.cells(), gb.cells());
        assert_eq!(ga.cells(), a.cells());
    }
    let mut a = world_from(&start);
    let mut b = world_from(&start);
    a.set_edge_inversion(true);
    b.set_edge_inversion(true);
    for _ in 0..12 {
        assert_eq!(a.next_generation().cells(), b.next_generation().cells());
    }
}

#[test]
fn next_generation_matches_update() {
    let mut a = world_from(&["...", "###", "..."]);
    let mut b = a.clone();
    let g = a.next_generation();
    b.update();
    assert_eq!(g.cells(), b.cells());
    assert_eq!(picture(&g), vec![".#.", ".#.", ".#."]);
}

#[test]
fn glider_moves() {
    let mut w = world_from(&[".#...", "..#..", "###..", ".....", "....."]);
    for _ in 0..4 {
        w.update();
    }
    assert_eq!(picture(&w), vec![".....", "..#..", "...#.", ".###.", "....."]);
}

#[test]
fn from_cells_fills_row_major() {
    let w = World::from_cells((2, 3), &vec![true, false, false, false, true, true]).unwrap();
    assert_eq!(w.dims(), (2, 3));
    assert!(!w.edge_inversion());
    assert_eq!(picture(&w), vec!["#..", ".##"]);
    assert!(matches!(
        World::from_cells((0, 3), &vec![]),
        Err(WorldError::InvalidDimensions)
    ));
}

#[test]
fn set_changes_only_its_cell() {
    let mut w = World::new((2, 2)).unwrap();
    w.set(1, 0, true);
    assert_eq!(picture(&w), vec!["..", "#."]);
    w.set(1, 0, false);
    assert_eq!(picture(&w), vec!["..", ".."]);
}
