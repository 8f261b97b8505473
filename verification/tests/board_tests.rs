use tileboard::board::{compose_board, compute_spacing, Board, Grid};
use tileboard::canvas::Canvas;
use tileboard::palette::Color;

fn rgba(r: u8, g: u8, b: u8, a: u8) -> Color {
    Color { r, g, b, a }
}

const PAPER: Color = Color { r: 250, g: 250, b: 250, a: 255 };

fn tiles(count: u8, size: u32) -> Vec<Canvas> {
    (1..=count).map(|n| Canvas::new(size, size, rgba(n, 2 * n, 3 * n, 255))).collect()
}

/// Checks that the picture shows tile `n` in the square at each of the
/// `origins`, and the background everywhere else.
fn expect_tiles(image: &Canvas, size: u32, origins: &[(u32, u32)], background: Color) {
    let (width, height) = image.dimensions();
    for y in 0..height {
        for x in 0..width {
            let mut expected = background;
            for (index, &(x0, y0)) in origins.iter().enumerate() {
                if x0 <= x && x < x0 + size && y0 <= y && y < y0 + size {
                    let n = index as u8 + 1;
                    expected = rgba(n, 2 * n, 3 * n, 255);
                }
            }
            assert_eq!(image.get_pixel(x, y), Some(expected), "at ({x}, {y})");
        }
    }
}

#[test]
fn spacing_divides_the_free_space_evenly() {
    // free width 200 - 100, two columns: gaps of 50, steps of 100
    let grid = compute_spacing(2, 2, (0, 0, 200, 200), 50);
    assert_eq!(grid, Grid { x: 0, y: 0, cols: 2, x_step: 100, y_step: 100 });
}

#[test]
fn spacing_leaves_the_remainder_unused() {
    // (205 - 100) / 2 = 52 and (160 - 100) / 2 = 30
    let grid = compute_spacing(2, 2, (10, 20, 215, 180), 50);
    assert_eq!(grid, Grid { x: 10, y: 20, cols: 2, x_step: 102, y_step: 80 });
    // (100 - 90) / 3 = 3 and (100 - 30) / 1 = 70
    let grid = compute_spacing(1, 3, (0, 0, 100, 100), 30);
    assert_eq!(grid, Grid { x: 0, y: 0, cols: 3, x_step: 33, y_step: 100 });
}

#[test]
fn spacing_of_a_full_grid_has_no_gaps() {
    let grid = compute_spacing(3, 4, (5, 5, 45, 35), 10);
    assert_eq!(grid, Grid { x: 5, y: 5, cols: 4, x_step: 10, y_step: 10 });
}

#[test]
fn board_places_tiles_from_the_top_left() {
    let background = Canvas::new(200, 200, PAPER);
    let image = compose_board(&background, &tiles(4, 50), 2, 2, (0, 0, 200, 200), 50);
    assert_eq!(image.dimensions(), (200, 200));
    expect_tiles(&image, 50, &[(0, 0), (100, 0), (0, 100), (100, 100)], PAPER);
}

#[test]
fn board_starts_every_row_at_the_left_edge() {
    let background = Canvas::new(230, 190, PAPER);
    let image = compose_board(&background, &tiles(6, 50), 2, 3, (10, 20, 215, 180), 50);
    assert_eq!(image.dimensions(), (230, 190));
    // gaps of (205 - 150) / 3 = 18 and (160 - 100) / 2 = 30
    expect_tiles(
        &image,
        50,
        &[(10, 20), (78, 20), (146, 20), (10, 100), (78, 100), (146, 100)],
        PAPER,
    );
}

#[test]
fn board_has_the_size_of_its_background() {
    for &(width, height, rows, cols) in &[(60u32, 40u32, 1usize, 1usize), (37, 91, 3, 1), (500, 20, 1, 9)] {
        let background = Canvas::new(width, height, PAPER);
        let pictures = tiles((rows * cols) as u8, 10);
        let rect = (0, 0, cols as u32 * 10, rows as u32 * 10);
        let image = compose_board(&background, &pictures, rows, cols, rect, 10);
        assert_eq!(image.dimensions(), (width, height));
    }
}

#[test]
fn board_keeps_a_translucent_background() {
    let glass = rgba(9, 9, 9, 0);
    let background = Canvas::new(30, 30, glass);
    let image = compose_board(&background, &tiles(1, 10), 1, 1, (10, 10, 20, 20), 10);
    // fully transparent pixels leave the transparent ground as it is
    expect_tiles(&image, 10, &[(10, 10)], rgba(0, 0, 0, 0));
    // the stored background stays untouched
    assert_eq!(background.get_pixel(15, 15), Some(glass));
}

#[test]
fn board_validity() {
    let board = |rows: usize, cols: usize, content_rect, tile_size: u32, count: usize| Board {
        rows,
        cols,
        content_rect,
        tile_size,
        image: Canvas::new(100, 80, PAPER),
        tiles: (0..count)
            .map(|n| tileboard::tile::Tile {
                number: n as u8 + 1,
                name: String::new(),
                image: Canvas::new(1, 1, PAPER),
                unlocked: true,
            })
            .collect(),
    };
    assert!(board(2, 2, (0, 0, 100, 80), 40, 4).check_valid());
    assert!(board(1, 1, (99, 79, 100, 80), 1, 1).check_valid());
    assert!(board(1, 1, (99, 79, 100, 80), 0, 1).check_valid());
    assert!(!board(2, 2, (0, 0, 100, 80), 40, 3).check_valid());
    assert!(!board(2, 2, (0, 0, 100, 80), 40, 5).check_valid());
    assert!(!board(2, 2, (0, 0, 100, 80), 41, 4).check_valid());
    assert!(!board(2, 2, (0, 0, 100, 79), 40, 4).check_valid());
    assert!(!board(2, 2, (0, 0, 101, 80), 40, 4).check_valid());
    assert!(!board(2, 2, (0, 0, 100, 81), 40, 4).check_valid());
    assert!(!board(2, 2, (50, 0, 50, 80), 0, 4).check_valid());
    assert!(!board(2, 2, (0, 80, 100, 80), 0, 4).check_valid());
    assert!(!board(0, 2, (0, 0, 100, 80), 40, 0).check_valid());
    assert!(!board(2, 0, (0, 0, 100, 80), 40, 0).check_valid());
    assert!(!board(usize::MAX, usize::MAX, (0, 0, 100, 80), 0, 1).check_valid());
}
