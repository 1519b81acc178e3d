use life_grid::{parse_pattern_file, Cell, Direction, Grid, PatternError};

fn parse(text: &str) -> Grid {
    parse_pattern_file(text).unwrap()
}

fn live_cells(grid: &Grid) -> Vec<(i32, i32)> {
    let mut live = Vec::new();
    for row in &grid.cells {
        for cell in row {
            if cell.alive {
                live.push((cell.x, cell.y));
            }
        }
    }
    live
}

#[test]
fn parse_empty_pattern_file() {
    let empty = Grid {
        cells: Vec::new(),
        size_x: 0,
        size_y: 0,
    };
    assert_eq!(parse_pattern_file("").unwrap(), empty);
}

#[test]
fn parse_invalid_pattern_file() {
    let invalid = "abcd";
    assert_eq!(parse_pattern_file(invalid), Err(PatternError::InvalidFormat));
}

#[test]
fn parse_simple_pattern_file() {
    let grid_string = "-x-\n-x-\n-x-";
    let mut cells = Vec::new();
    let (size_x, size_y) = (3, 3);
    for y in 0..size_y {
        let mut row = Vec::new();
        for x in 0..size_x {
            let mut alive = false;
            if x == 1 {
                alive = true;
            }
            let cell = Cell { x, y, alive };
            row.push(cell);
        }
        cells.push(row);
    }
    let expected_grid = Grid {
        cells,
        size_x,
        size_y,
    };
    assert_eq!(parse_pattern_file(grid_string).unwrap(), expected_grid);
}

#[test]
fn kill_cell() {
    let grid = parse("----\n--x-\n-x--\n-x--\n----");
    let cell = grid.cells[1][2];
    assert_eq!(cell.alive, true);
    assert_eq!(grid.get_next_state(cell), false);
}

#[test]
fn revive_cell() {
    let grid = parse("----\n--x-\n-x--\n-x--\n----");
    let cell = grid.cells[2][2];
    assert_eq!(cell.alive, false);
    assert_eq!(grid.get_next_state(cell), true);
}

#[test]
fn let_cells_be() {
    let grid = parse("----\n--x-\n-x--\n-x--\n----");

    let alive_cell = grid.cells[2][1];
    assert_eq!(alive_cell.alive, true);
    assert_eq!(grid.get_next_state(alive_cell), true);

    let dead_cell = grid.cells[1][1];
    assert_eq!(dead_cell.alive, false);
    assert_eq!(grid.get_next_state(dead_cell), false);
}

#[test]
fn expand_north() {
    let mut grid = parse("---\n-x-\n---");
    let row_count = grid.cells.len();
    let col_count = grid.cells[0].len();
    let mut cell = grid.cells[1][1];
    assert_eq!(cell.alive, true);

    grid.expand(Direction::N);
    cell = grid.cells[1][1];
    let shifted_cell = grid.cells[2][1];
    assert_eq!(grid.cells.len(), row_count + 1);
    assert_eq!(grid.cells[row_count].len(), col_count);
    assert_eq!(cell.alive, false);
    assert_eq!(shifted_cell.alive, true);
}

#[test]
fn expand_south() {
    let mut grid = parse("---\n-x-\n---");
    let row_count = grid.cells.len();
    let col_count = grid.cells[0].len();
    grid.expand(Direction::S);
    assert_eq!(grid.cells.len(), row_count + 1);
    assert_eq!(grid.cells[row_count].len(), col_count);
}

#[test]
fn expand_east() {
    let mut grid = parse("---\n-x-\n---");
    let row_len = grid.cells[0].len();
    grid.expand(Direction::E);
    for row in &grid.cells {
        assert_eq!(row.len(), row_len + 1);
    }
}

#[test]
fn expand_west() {
    let mut grid = parse("---\n-x-\n---");
    let row_len = grid.cells[0].len();
    let mut cell = grid.cells[1][1];
    assert_eq!(cell.alive, true);

    grid.expand(Direction::W);
    cell = grid.cells[1][1];
    let shifted_cell = grid.cells[1][2];
    assert_eq!(cell.alive, false);
    assert_eq!(shifted_cell.alive, true);

    for row in &grid.cells {
        assert_eq!(row.len(), row_len + 1);
    }
}

#[test]
fn expand_northeast() {
    let mut grid1 = parse("---\n-x-\n---");
    let mut grid2 = grid1.clone();
    grid1.expand(Direction::NE);
    grid2.expand(Direction::N);
    grid2.expand(Direction::E);
    assert_eq!(grid1, grid2);
}

#[test]
fn expand_northwest() {
    let mut grid1 = parse("---\n-x-\n---");
    let mut grid2 = grid1.clone();
    grid1.expand(Direction::NW);
    grid2.expand(Direction::N);
    grid2.expand(Direction::W);
    assert_eq!(grid1, grid2);
}

#[test]
fn expand_southeast() {
    let mut grid1 = parse("---\n-x-\n---");
    let mut grid2 = grid1.clone();
    grid1.expand(Direction::SE);
    grid2.expand(Direction::S);
    grid2.expand(Direction::E);
    assert_eq!(grid1, grid2);
}

#[test]
fn expand_southwest() {
    let mut grid1 = parse("---\n-x-\n---");
    let mut grid2 = grid1.clone();
    grid1.expand(Direction::SW);
    grid2.expand(Direction::S);
    grid2.expand(Direction::W);
    assert_eq!(grid1, grid2);
}

#[test]
fn corner_expansion_either_order() {
    let mut grid1 = parse("x--\n-x-\n--x");
    let mut grid2 = grid1.clone();
    grid1.expand(Direction::E);
    grid1.expand(Direction::N);
    grid2.expand(Direction::NE);
    assert_eq!(grid1, grid2);
    assert_eq!((grid2.size_x, grid2.size_y), (4, 4));
    assert_eq!(live_cells(&grid2), vec![(0, 1), (1, 2), (2, 3)]);
}

#[test]
fn parse_drops_final_line_break() {
    let grid = parse("x-\n-x\n");
    assert_eq!((grid.size_x, grid.size_y), (2, 2));
    assert_eq!(live_cells(&grid), vec![(0, 0), (1, 1)]);
}

#[test]
fn parse_line_breaks_only_is_empty() {
    let grid = parse("\n\n");
    assert_eq!((grid.size_x, grid.size_y), (0, 0));
    assert!(grid.cells.is_empty());
}

#[test]
fn parse_uneven_rows() {
    assert_eq!(parse_pattern_file("x-\nx"), Err(PatternError::UnevenRows));
    assert_eq!(parse_pattern_file("x-\n\nx-"), Err(PatternError::UnevenRows));
}

#[test]
fn parse_bad_character_wins_over_uneven_rows() {
    assert_eq!(parse_pattern_file("x-\nx"), Err(PatternError::UnevenRows));
    assert_eq!(parse_pattern_file("x-\nx "), Err(PatternError::InvalidFormat));
    assert_eq!(parse_pattern_file("x-\r\nx "), Err(PatternError::InvalidFormat));
    let grid = parse("x-\r\n-x");
    assert_eq!((grid.size_x, grid.size_y), (2, 2));
    assert_eq!(live_cells(&grid), vec![(0, 0), (1, 1)]);
}

#[test]
fn parse_crlf_line_breaks() {
    let grid = parse("x\r\n");
    assert_eq!((grid.size_x, grid.size_y), (1, 1));
    assert_eq!(grid.cells[0][0], Cell { x: 0, y: 0, alive: true });
    let grid = parse("-\r\n");
    assert_eq!((grid.size_x, grid.size_y), (1, 1));
    assert!(live_cells(&grid).is_empty());
    assert_eq!(parse("-x-\r\n-x-\n-x-\r\n"), parse("-x-\n-x-\n-x-"));
    assert_eq!(parse_pattern_file("x-\r\nx"), Err(PatternError::UnevenRows));
}

#[test]
fn parse_lone_carriage_return() {
    assert_eq!(parse_pattern_file("x\r"), Err(PatternError::InvalidFormat));
    assert_eq!(parse_pattern_file("x\r-\n-x"), Err(PatternError::InvalidFormat));
    assert_eq!(parse_pattern_file("x\r\r\n"), Err(PatternError::InvalidFormat));
}

#[test]
fn live_neighbor_count() {
    let grid = parse("xxx\nx-x\nxxx");
    assert_eq!(grid.get_live_neighbors(grid.cells[1][1]), 8);
    assert_eq!(grid.get_live_neighbors(grid.cells[0][0]), 2);
    assert_eq!(grid.get_live_neighbors(grid.cells[0][1]), 4);
}

#[test]
fn edges_of_grid() {
    let grid = parse("---\n---\n---");
    assert_eq!(grid.on_edge(grid.cells[0][0]), Some(Direction::NW));
    assert_eq!(grid.on_edge(grid.cells[0][2]), Some(Direction::NE));
    assert_eq!(grid.on_edge(grid.cells[2][0]), Some(Direction::SW));
    assert_eq!(grid.on_edge(grid.cells[2][2]), Some(Direction::SE));
    assert_eq!(grid.on_edge(grid.cells[1][0]), Some(Direction::W));
    assert_eq!(grid.on_edge(grid.cells[1][2]), Some(Direction::E));
    assert_eq!(grid.on_edge(grid.cells[0][1]), Some(Direction::N));
    assert_eq!(grid.on_edge(grid.cells[2][1]), Some(Direction::S));
    assert_eq!(grid.on_edge(grid.cells[1][1]), None);
}

#[test]
fn blinker_turns_without_growing() {
    let mut grid = parse("-----\n--x--\n--x--\n--x--\n-----");
    assert!(grid.next_state());
    assert_eq!(grid, parse("-----\n-----\n-xxx-\n-----\n-----"));
    assert!(grid.next_state());
    assert_eq!(grid, parse("-----\n--x--\n--x--\n--x--\n-----"));
}

#[test]
fn still_life_reports_no_change() {
    let mut grid = parse("----\n-xx-\n-xx-\n----");
    let before = grid.clone();
    assert!(!grid.next_state());
    assert_eq!(grid, before);
    assert!(grid.same_state(&before));
}

#[test]
fn empty_grid_reports_no_change() {
    let mut grid = parse("");
    assert!(!grid.next_state());
    assert_eq!((grid.size_x, grid.size_y), (0, 0));
}

#[test]
fn lone_corner_cell_expands_once() {
    let mut grid = parse("x");
    assert!(grid.next_state());
    assert_eq!((grid.size_x, grid.size_y), (2, 2));
    assert!(live_cells(&grid).is_empty());
}

#[test]
fn one_row_per_side_whatever_the_number_of_cells() {
    let mut grid = parse("-x-x-\n-----\n-----");
    assert!(grid.next_state());
    assert_eq!((grid.size_x, grid.size_y), (5, 4));
    assert!(live_cells(&grid).is_empty());
}

#[test]
fn side_and_corner_both_expand() {
    let mut grid = parse("x-x-\n----\n----");
    assert!(grid.next_state());
    assert_eq!((grid.size_x, grid.size_y), (5, 5));
    assert!(live_cells(&grid).is_empty());
}

#[test]
fn unchanged_cells_but_grown_grid_counts_as_change() {
    let mut grid = parse("xx--\nxx--\n----\n----");
    assert!(grid.next_state());
    assert_eq!((grid.size_x, grid.size_y), (6, 6));
    assert_eq!(live_cells(&grid), vec![(2, 2), (3, 2), (2, 3), (3, 3)]);
    let before = grid.clone();
    assert!(!grid.next_state());
    assert_eq!(grid, before);
}

#[test]
fn render_with_given_glyphs() {
    let grid = parse("x-\n-x");
    assert_eq!(grid.render_with("#", "."), "#.\n.#\n");
    assert_eq!(parse("").render_with("#", "."), "");
}

#[test]
fn render_draws_squares() {
    let grid = parse("x-\n-x");
    let text = grid.render();
    assert_eq!(text.matches('\u{2B1B}').count(), 4);
    assert_eq!(text.lines().count(), 2);
    assert_ne!(text, grid.render_with("x", "-"));
}

#[test]
fn expand_north_inserts_dead_row() {
    let mut grid = parse("---\n-x-\n---");
    grid.expand(Direction::N);
    assert_eq!((grid.size_x, grid.size_y), (3, 4));
    assert!(grid.cells[0].iter().all(|c| !c.alive));
    assert_eq!(live_cells(&grid), vec![(1, 2)]);
    for (y, row) in grid.cells.iter().enumerate() {
        for (x, cell) in row.iter().enumerate() {
            assert_eq!((cell.x, cell.y), (x as i32, y as i32));
        }
    }
}
