use lux_camp_badge::gol::Gol;
use lux_camp_badge::led::hsv_rgb_convert::Rgb8;
use lux_camp_badge::led::matrix::{GridMatrix, RecordingDriver};
use lux_camp_badge::led::{Animation, LedMatrix};

fn grid(rows: &[&[u8]]) -> Vec<Vec<bool>> {
    rows.iter().map(|r| r.iter().map(|c| *c == 1).collect()).collect()
}

fn dead(columns: usize, rows: usize) -> Vec<Vec<bool>> {
    vec![vec![false; columns]; rows]
}

#[test]
fn isolated_cell_dies_after_one_generation() {
    let mut g = Gol::build(1, 50, None, None);
    g.set_cells(grid(&[&[0, 0, 0], &[0, 1, 0], &[0, 0, 0]]));
    assert_eq!(g.next_generation(), dead(3, 3));

    // A corner cell is just as alone on the torus.
    g.set_cells(grid(&[&[1, 0, 0], &[0, 0, 0], &[0, 0, 0]]));
    assert_eq!(g.next_generation(), dead(3, 3));
}

#[test]
fn neighbors_wrap_around_the_edges() {
    let mut g = Gol::build(1, 50, None, None);
    g.set_cells(grid(&[&[1, 0, 1], &[0, 0, 0], &[1, 0, 0]]));
    // The three live cells sit in a corner cluster once the edges wrap.
    assert_eq!(g.neighbors(1, 1), 3);
    assert_eq!(g.neighbors(0, 0), 2);
    // A cell counts its torus neighborhood, not itself.
    g.set_cells(grid(&[&[0, 1, 0], &[1, 1, 1], &[0, 1, 0]]));
    assert_eq!(g.neighbors(1, 1), 4);
}

#[test]
fn blinker_oscillates_with_period_two() {
    let start = grid(&[
        &[0, 0, 0, 0, 0],
        &[0, 0, 0, 0, 0],
        &[0, 1, 1, 1, 0],
        &[0, 0, 0, 0, 0],
        &[0, 0, 0, 0, 0],
    ]);
    let mut g = Gol::build(1, 50, None, None);
    g.set_cells(start.clone());
    let one = g.next_generation();
    assert_eq!(
        one,
        grid(&[
            &[0, 0, 0, 0, 0],
            &[0, 0, 1, 0, 0],
            &[0, 0, 1, 0, 0],
            &[0, 0, 1, 0, 0],
            &[0, 0, 0, 0, 0],
        ])
    );
    g.set_cells(one);
    assert_eq!(g.next_generation(), start);
}

#[test]
fn glider_repeats_after_its_known_period() {
    // On a 5 by 5 torus a glider returns to its starting pattern after
    // 20 generations.
    let start = grid(&[
        &[0, 1, 0, 0, 0],
        &[0, 0, 1, 0, 0],
        &[1, 1, 1, 0, 0],
        &[0, 0, 0, 0, 0],
        &[0, 0, 0, 0, 0],
    ]);
    let mut g = Gol::build(1, 50, None, None);
    g.set_cells(start.clone());
    for step in 1..=20 {
        let next = g.next_generation();
        if step < 20 {
            assert_ne!(next, start);
        }
        g.set_cells(next);
    }
    assert_eq!(*g.cells(), start);
}

#[test]
fn full_block_survives() {
    // A 2x2 block in a quiet corner of a 4x4 torus is a still life.
    let block = grid(&[&[1, 1, 0, 0], &[1, 1, 0, 0], &[0, 0, 0, 0], &[0, 0, 0, 0]]);
    let mut g = Gol::build(1, 50, None, None);
    g.set_cells(block.clone());
    assert_eq!(g.next_generation(), block);
}

#[test]
fn update_applies_the_rule_to_grid_and_matrix() {
    let mut m: GridMatrix<RecordingDriver> = GridMatrix::new(3, 3);
    // A 100% start probability seeds every cell alive.
    let mut g = Gol::build(1, 100, None, None);
    g.init(&mut m);
    assert!(g.cells().iter().all(|row| row.iter().all(|c| *c)));
    let color = m.read_buf()[0];
    assert!(m.read_buf().iter().all(|px| *px == color));

    // On a full torus every cell has eight live neighbors and dies.
    g.update(0, &mut m);
    assert!(g.cells().iter().all(|row| row.iter().all(|c| !*c)));
    assert!(m.read_buf().iter().all(|px| *px == Rgb8::new(0, 0, 0)));
}
