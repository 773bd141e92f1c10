use life_viewer::grid::{alive_neighbours, as_html, grid_from_draws, next_tick, spawn_grid, Grid, SIZE};

fn all_alive() -> Grid {
    let mut g = Grid::dead();
    for r in 0..SIZE {
        for c in 0..SIZE {
            g.set(r, c, true);
        }
    }
    g
}

fn alive_count(g: &Grid) -> usize {
    let mut n = 0;
    for r in 0..SIZE {
        for c in 0..SIZE {
            if g.get(r, c) {
                n += 1;
            }
        }
    }
    n
}

fn same(a: &Grid, b: &Grid) -> bool {
    (0..SIZE).all(|r| (0..SIZE).all(|c| a.get(r, c) == b.get(r, c)))
}

#[test]
fn corner_counts_three_neighbours() {
    let mut g = all_alive();
    g.set(0, 0, false);
    assert_eq!(alive_neighbours(&g, 0, 0), 3);
    assert_eq!(alive_neighbours(&g, SIZE - 1, SIZE - 1), 3);
}

#[test]
fn edge_counts_five_neighbours() {
    let g = all_alive();
    assert_eq!(alive_neighbours(&g, 0, 10), 5);
    assert_eq!(alive_neighbours(&g, 10, 0), 5);
    assert_eq!(alive_neighbours(&g, SIZE - 1, 10), 5);
    assert_eq!(alive_neighbours(&g, 10, SIZE - 1), 5);
    assert_eq!(alive_neighbours(&g, 10, 10), 8);
}

#[test]
fn no_wrap_around_edges() {
    let mut g = Grid::dead();
    g.set(0, SIZE - 1, true);
    g.set(SIZE - 1, 0, true);
    g.set(SIZE - 1, SIZE - 1, true);
    assert_eq!(alive_neighbours(&g, 0, 0), 0);
}

#[test]
fn transition_is_deterministic() {
    let g = grid_from_draws(&(0..2500u32).map(|k| ((k * 37) % 100) as u8).collect());
    let a = next_tick(&g);
    let b = next_tick(&g);
    assert!(same(&a, &b));
}

#[test]
fn rule_table_alive_cell() {
    // Alive centre cell with n alive neighbours placed around it.
    let spots = [(4, 4), (4, 5), (4, 6), (5, 4), (5, 6), (6, 4), (6, 5), (6, 6)];
    for n in 0..=8 {
        let mut g = Grid::dead();
        g.set(5, 5, true);
        for &(r, c) in spots.iter().take(n) {
            g.set(r, c, true);
        }
        assert_eq!(alive_neighbours(&g, 5, 5) as usize, n);
        let next = next_tick(&g);
        assert_eq!(next.get(5, 5), n == 2 || n == 3, "alive with {} neighbours", n);
    }
}

#[test]
fn rule_table_dead_cell() {
    let spots = [(4, 4), (4, 5), (4, 6), (5, 4), (5, 6), (6, 4), (6, 5), (6, 6)];
    for n in 0..=8 {
        let mut g = Grid::dead();
        for &(r, c) in spots.iter().take(n) {
            g.set(r, c, true);
        }
        let next = next_tick(&g);
        assert_eq!(next.get(5, 5), n == 3, "dead with {} neighbours", n);
    }
}

#[test]
fn blinker_reads_only_previous_grid() {
    let mut g = Grid::dead();
    g.set(10, 9, true);
    g.set(10, 10, true);
    g.set(10, 11, true);
    let next = next_tick(&g);
    assert!(next.get(9, 10) && next.get(10, 10) && next.get(11, 10));
    assert!(!next.get(10, 9) && !next.get(10, 11));
    assert_eq!(alive_count(&next), 3);
    assert!(same(&next_tick(&next), &g));
}

#[test]
fn dead_grid_is_fixed_point() {
    let g = Grid::dead();
    let next = next_tick(&g);
    assert_eq!(alive_count(&next), 0);
}

#[test]
fn render_counts_markers() {
    let mut g = Grid::dead();
    g.set(0, 0, true);
    g.set(3, 7, true);
    g.set(49, 49, true);
    let html = as_html(&g);
    assert_eq!(html.matches("class=\"alive\"").count(), 3);
    assert_eq!(html.matches("<div class=\"row\">").count(), 50);
    assert_eq!(html.matches("<span").count(), 2500);
    assert!(html.starts_with("<div id=\"container\" class=\"container\" hx-swap-oob=\"true\">\n<div class=\"row\">\n\t<span class=\"alive\"></span>\n\t<span></span>\n"));
    assert!(html.ends_with("\t<span class=\"alive\"></span>\n</div>\n</div>"));
}

#[test]
fn render_row_major_order() {
    let mut g = Grid::dead();
    g.set(1, 0, true);
    let html = as_html(&g);
    let rows: Vec<&str> = html.split("<div class=\"row\">\n").collect();
    assert_eq!(rows.len(), 51);
    assert!(!rows[1].contains("alive"));
    assert!(rows[2].starts_with("\t<span class=\"alive\"></span>\n\t<span></span>\n"));
    assert_eq!(rows[2].matches("<span").count(), 50);
}

#[test]
fn render_dead_grid_exact_length() {
    let html = as_html(&Grid::dead());
    let head = "<div id=\"container\" class=\"container\" hx-swap-oob=\"true\">\n".len();
    let row = "<div class=\"row\">\n".len() + 50 * "\t<span></span>\n".len() + "</div>\n".len();
    assert_eq!(html.len(), head + 50 * row + "</div>".len());
}

#[test]
fn seeding_threshold() {
    let mut draws = vec![0u8; 2500];
    draws[0] = 91;
    draws[1] = 90;
    draws[2] = 99;
    draws[2499] = 95;
    let g = grid_from_draws(&draws);
    assert!(g.get(0, 0));
    assert!(!g.get(0, 1));
    assert!(g.get(0, 2));
    assert!(g.get(49, 49));
    assert_eq!(alive_count(&g), 3);
}

#[test]
fn spawned_grid_is_sparse() {
    let g = spawn_grid();
    let n = alive_count(&g);
    // Each cell is alive with probability 9/100; 2500 cells give about 225.
    assert!(n > 100 && n < 400, "alive cells: {}", n);
}

#[test]
fn render_markers_match_alive_cells() {
    let g = grid_from_draws(&(0..2500u32).map(|k| ((k * 53 + 7) % 100) as u8).collect());
    let html = as_html(&g);
    assert!(alive_count(&g) > 0);
    assert_eq!(html.matches("class=\"alive\"").count(), alive_count(&g));
}
