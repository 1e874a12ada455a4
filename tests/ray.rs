use raycaster::grid::GridMap;
use raycaster::ray::{dda_step, DdaStep, Side};

fn bordered(w: usize, h: usize) -> GridMap {
    let mut cells = vec![0u8; w * h];
    for row in 0..h {
        for col in 0..w {
            if row == 0 || col == 0 || row == h - 1 || col == w - 1 {
                cells[row * w + col] = 1;
            }
        }
    }
    GridMap::new(w, h, cells).unwrap()
}

#[test]
fn ray_along_x_hits_a_vertical_gridline() {
    let m = bordered(3, 3);
    assert_eq!(dda_step(&m, 1, 1, true, 1, 1), DdaStep::Hit(Side::Vertical));
}

#[test]
fn ray_along_y_hits_a_horizontal_gridline() {
    let m = bordered(3, 3);
    assert_eq!(dda_step(&m, 1, 1, false, 1, 1), DdaStep::Hit(Side::Horizontal));
}

#[test]
fn steps_into_empty_cells_in_the_direction_of_the_ray() {
    let m = bordered(5, 5);
    assert_eq!(dda_step(&m, 2, 2, true, 1, 1), DdaStep::Continue(3, 2));
    assert_eq!(dda_step(&m, 2, 2, true, -1, 1), DdaStep::Continue(1, 2));
    assert_eq!(dda_step(&m, 2, 2, false, 1, -1), DdaStep::Continue(2, 1));
    assert_eq!(dda_step(&m, 2, 2, false, 1, 1), DdaStep::Continue(2, 3));
}

#[test]
fn leaves_a_map_without_border() {
    let m = GridMap::new(2, 2, vec![0; 4]).unwrap();
    assert_eq!(dda_step(&m, 0, 0, true, -1, 1), DdaStep::Exit);
    assert_eq!(dda_step(&m, 0, 0, false, 1, -1), DdaStep::Exit);
    assert_eq!(dda_step(&m, 1, 1, true, 1, 1), DdaStep::Exit);
    assert_eq!(dda_step(&m, 1, 1, false, 1, 1), DdaStep::Exit);
}

#[test]
fn bordered_walk_ends_on_a_wall_within_width_plus_height_steps() {
    let (w, h) = (7usize, 5usize);
    let m = bordered(w, h);
    let patterns: [fn(usize) -> bool; 4] = [|_| true, |_| false, |k| k % 2 == 0, |k| k % 3 != 0];
    for pattern in patterns {
        for (sx, sy) in [(1i8, 1i8), (-1, 1), (1, -1), (-1, -1)] {
            let (mut col, mut row) = (3usize, 2usize);
            let mut steps = 0usize;
            loop {
                steps += 1;
                match dda_step(&m, col, row, pattern(steps), sx, sy) {
                    DdaStep::Continue(c, r) => {
                        col = c;
                        row = r;
                    }
                    DdaStep::Hit(_) => break,
                    DdaStep::Exit => panic!("left a bordered map"),
                }
                assert!(steps <= w + h);
            }
            assert!(steps <= w + h);
        }
    }
}
