use wol::game_of_life::BasicGoL;
use wol::rule::Rule;

fn blank(width: usize, height: usize) -> Vec<Vec<u8>> {
    vec![vec![0u8; width]; height]
}

#[test]
fn new_grid_is_all_dead() {
    let gol = BasicGoL::new(4, 3);
    assert_eq!(gol.width(), 4);
    assert_eq!(gol.height(), 3);
    assert_eq!(gol.iter(), blank(4, 3));
}

#[test]
fn set_writes_the_next_buffer_and_swap_reveals_it() {
    let mut gol = BasicGoL::new(3, 3);
    gol.set(2, 2, 1);
    assert_eq!(gol.get(2, 2), 0);
    gol.swap_buffers();
    assert_eq!(gol.get(2, 2), 1);
}

#[test]
fn paint_is_visible_without_a_swap() {
    let mut gol = BasicGoL::new(4, 4);
    gol.paint(1, 2, 2, 1, &vec![1, 1]);
    let mut expected = blank(4, 4);
    expected[2][1] = 1;
    expected[2][2] = 1;
    assert_eq!(gol.iter(), expected);
}

#[test]
fn sum_neighbors_counts_the_moore_neighborhood() {
    let mut gol = BasicGoL::new(3, 3);
    gol.paint(0, 0, 3, 3, &vec![1, 0, 1, 0, 0, 0, 0, 1, 0]);
    assert_eq!(gol.sum_neighbors(2, 2), 3);
    assert_eq!(gol.sum_neighbors(1, 1), 0);
    assert_eq!(gol.sum_neighbors(3, 3), 1);
}

#[test]
fn border_ring_starts_and_stays_zero() {
    let mut gol = BasicGoL::new(5, 5);
    gol.fill_with_gliders();
    for _ in 0..10 {
        gol.tick();
    }
    for c in 0..7 {
        assert_eq!(gol.get(0, c), 0);
        assert_eq!(gol.get(6, c), 0);
    }
    for r in 0..7 {
        assert_eq!(gol.get(r, 0), 0);
        assert_eq!(gol.get(r, 6), 0);
    }
}

#[test]
fn fill_with_gliders_stamps_the_canonical_tile() {
    let mut gol = BasicGoL::new(5, 5);
    gol.fill_with_gliders();
    let mut expected = blank(5, 5);
    for (dr, dc) in [(0usize, 1usize), (1, 2), (2, 0), (2, 1), (2, 2)] {
        expected[dr][dc] = 1;
    }
    assert_eq!(gol.iter(), expected);
}

#[test]
fn fill_with_gliders_tiles_every_fifth_row_and_column() {
    let mut gol = BasicGoL::new(12, 7);
    gol.fill_with_gliders();
    let mut expected = blank(12, 7);
    for base_r in [0usize, 5] {
        for base_c in [0usize, 5, 10] {
            for (dr, dc) in [(0usize, 1usize), (1, 2), (2, 0), (2, 1), (2, 2)] {
                let r = base_r + dr;
                let c = base_c + dc;
                if r < 7 && c < 12 {
                    expected[r][c] = 1;
                }
            }
        }
    }
    assert_eq!(gol.iter(), expected);
}

#[test]
fn a_block_is_a_fixed_point_under_conway() {
    let mut gol = BasicGoL::new(4, 4);
    gol.paint(1, 1, 2, 2, &vec![1, 1, 1, 1]);
    let seed = gol.iter();
    for _ in 0..8 {
        gol.tick();
    }
    assert_eq!(gol.iter(), seed);
}

#[test]
fn a_glider_translates_diagonally_every_four_ticks() {
    let mut gol = BasicGoL::new(10, 10);
    gol.paint(0, 0, 3, 3, &vec![0, 1, 0, 0, 0, 1, 1, 1, 1]);
    let seed = gol.iter();
    for _ in 0..4 {
        gol.tick();
    }
    let mut expected = blank(10, 10);
    for r in 1..10 {
        for c in 1..10 {
            if seed[r - 1][c - 1] == 1 {
                expected[r][c] = 1;
            }
        }
    }
    assert_eq!(gol.iter(), expected);
}

#[test]
fn equal_seeds_step_to_identical_generations() {
    let mut a = BasicGoL::new(9, 6);
    let mut b = BasicGoL::new(9, 6);
    a.fill_with_gliders();
    b.fill_with_gliders();
    for _ in 0..5 {
        a.tick();
        b.tick();
        assert_eq!(a.iter(), b.iter());
    }
}

#[test]
fn cellwise_evaluation_in_reverse_order_matches_tick() {
    let mut gol = BasicGoL::new(6, 5);
    gol.paint(1, 1, 3, 3, &vec![1, 1, 0, 0, 1, 1, 1, 0, 1]);
    let rule = Rule::parse("B3/S23").unwrap();
    let mut manual = blank(6, 5);
    for r in (1..=5usize).rev() {
        for c in (1..=6usize).rev() {
            manual[r - 1][c - 1] = gol.step_cell_at(&rule, r, c);
        }
    }
    gol.tick_rule(&rule);
    assert_eq!(gol.iter(), manual);
}

#[test]
fn tick_rule_honors_a_non_conway_rule() {
    // under B1/S a lone cell dies while its eight neighbors are born
    let mut gol = BasicGoL::new(3, 3);
    gol.paint(1, 1, 1, 1, &vec![1]);
    let rule = Rule::parse("B1/S").unwrap();
    gol.tick_rule(&rule);
    let expected = vec![vec![1, 1, 1], vec![1, 0, 1], vec![1, 1, 1]];
    assert_eq!(gol.iter(), expected);
}

#[test]
fn step_many_matches_repeated_ticks() {
    let rule = Rule::parse("B36/S23").unwrap();
    let mut a = BasicGoL::new(8, 8);
    let mut b = BasicGoL::new(8, 8);
    a.fill_with_gliders();
    b.fill_with_gliders();
    a.step_many(6, &rule);
    for _ in 0..6 {
        b.tick_rule(&rule);
    }
    assert_eq!(a.iter(), b.iter());
}

#[test]
fn render_draws_rows_top_to_bottom() {
    let mut gol = BasicGoL::new(3, 2);
    gol.paint(0, 0, 3, 2, &vec![1, 0, 0, 0, 1, 1]);
    assert_eq!(gol.render(".", "#"), "#..\n.##\n");
    assert_eq!(gol.render(" .", " #"), " # . .\n . # #\n");
}
