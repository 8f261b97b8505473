use std::collections::HashSet;

use tileboard::builder::{
    validate_content_rect, validate_tile_count, validate_tile_numbers, BoardBuilder,
    BoardBuilderError, ContentRect, TileBuilder,
};
use tileboard::canvas::Canvas;
use tileboard::palette::Color;
use tileboard::tile::TileRenderOptions;

fn rgba(r: u8, g: u8, b: u8, a: u8) -> Color {
    Color { r, g, b, a }
}

fn tile(number: u8) -> TileBuilder {
    TileBuilder {
        number,
        name: format!("tile {number}"),
        image: format!("icons/{number}.png"),
        unlocked: number % 2 == 1,
    }
}

fn tiles(numbers: &[u8]) -> Vec<TileBuilder> {
    numbers.iter().map(|&n| tile(n)).collect()
}

fn set(numbers: &[u8]) -> HashSet<u8> {
    numbers.iter().copied().collect()
}

fn rect(x1: u32, y1: u32, x2: u32, y2: u32) -> ContentRect {
    ContentRect { x1, y1, x2, y2 }
}

fn builder(rows: usize, cols: usize, content_rect: ContentRect, numbers: &[u8]) -> BoardBuilder {
    BoardBuilder {
        rows,
        cols,
        content_rect,
        tile_size: 50,
        tile_render_options: TileRenderOptions::default(),
        image: "board.png".to_string(),
        tiles: tiles(numbers),
    }
}

/// An icon for each tile, told apart by its colour.
fn icons(numbers: &[u8]) -> Vec<Canvas> {
    numbers.iter().map(|&n| Canvas::new(2, 2, rgba(n, n, n, 255))).collect()
}

fn expect_invalid(r: Result<(), BoardBuilderError>, w: u32, h: u32, r0: ContentRect) {
    match r {
        Err(BoardBuilderError::InvalidDimensions { width, height, content_rect }) => {
            assert_eq!((width, height, content_rect), (w, h, r0));
        }
        other => panic!("expected invalid dimensions, got {other:?}"),
    }
}

#[test]
fn content_rect_that_fits_is_accepted() {
    assert!(validate_content_rect((200, 200), &rect(0, 0, 200, 200), 50, 2, 2).is_ok());
    assert!(validate_content_rect((200, 200), &rect(0, 0, 200, 200), 100, 2, 2).is_ok());
    assert!(validate_content_rect((300, 100), &rect(10, 20, 290, 80), 60, 1, 4).is_ok());
    assert!(validate_content_rect((1, 1), &rect(0, 0, 1, 1), 1, 1, 1).is_ok());
    assert!(validate_content_rect((1, 1), &rect(0, 0, 1, 1), 0, 7, 9).is_ok());
    assert!(validate_content_rect((9, 9), &rect(0, 0, 1, 1), 5, 0, 0).is_ok());
}

#[test]
fn content_rect_that_is_empty_is_refused() {
    let r = rect(100, 0, 100, 200);
    expect_invalid(validate_content_rect((200, 200), &r, 50, 1, 1), 200, 200, r);
    let r = rect(0, 200, 200, 100);
    expect_invalid(validate_content_rect((200, 200), &r, 50, 1, 1), 200, 200, r);
}

#[test]
fn content_rect_outside_the_image_is_refused() {
    let r = rect(0, 0, 201, 200);
    expect_invalid(validate_content_rect((200, 200), &r, 50, 2, 2), 200, 200, r);
    let r = rect(0, 0, 200, 201);
    expect_invalid(validate_content_rect((200, 200), &r, 50, 2, 2), 200, 200, r);
    // no wider than the image, but shifted out of it
    let r = rect(100, 100, 250, 250);
    expect_invalid(validate_content_rect((200, 200), &r, 50, 2, 2), 200, 200, r);
}

#[test]
fn content_rect_too_small_for_the_grid_is_refused() {
    let r = rect(0, 0, 199, 200);
    expect_invalid(validate_content_rect((200, 200), &r, 100, 2, 2), 200, 200, r);
    let r = rect(0, 0, 200, 199);
    expect_invalid(validate_content_rect((200, 200), &r, 100, 2, 2), 200, 200, r);
    let r = rect(0, 0, 200, 200);
    expect_invalid(validate_content_rect((200, 200), &r, 1, usize::MAX, 1), 200, 200, r);
    expect_invalid(validate_content_rect((200, 200), &r, u32::MAX, 1, usize::MAX), 200, 200, r);
}

#[test]
fn tile_count_must_match_the_grid() {
    assert!(validate_tile_count(2, 3, &tiles(&[1, 2, 3, 4, 5, 6])).is_ok());
    assert!(validate_tile_count(0, 3, &[]).is_ok());
    match validate_tile_count(2, 3, &tiles(&[1, 2, 3, 4, 5])) {
        Err(BoardBuilderError::WrongNumberOfTiles { expected, actual }) => {
            assert_eq!((expected, actual), (6, 5));
        }
        other => panic!("expected a wrong number of tiles, got {other:?}"),
    }
    match validate_tile_count(1, 1, &tiles(&[1, 2])) {
        Err(BoardBuilderError::WrongNumberOfTiles { expected, actual }) => {
            assert_eq!((expected, actual), (1, 2));
        }
        other => panic!("expected a wrong number of tiles, got {other:?}"),
    }
}

#[test]
fn tile_numbers_in_any_order_are_accepted() {
    assert!(validate_tile_numbers(&tiles(&[1, 2, 3])).is_ok());
    assert!(validate_tile_numbers(&tiles(&[3, 1, 2])).is_ok());
    assert!(validate_tile_numbers(&tiles(&[1])).is_ok());
    assert!(validate_tile_numbers(&[]).is_ok());
    let all: Vec<u8> = (1..=255).rev().collect();
    assert!(validate_tile_numbers(&tiles(&all)).is_ok());
}

#[test]
fn tile_numbers_used_twice_are_unexpected() {
    match validate_tile_numbers(&tiles(&[1, 2, 2])) {
        Err(BoardBuilderError::UnexpectedTiles(numbers)) => assert_eq!(numbers, set(&[2])),
        other => panic!("expected unexpected tiles, got {other:?}"),
    }
    match validate_tile_numbers(&tiles(&[4, 1, 4, 1, 4])) {
        Err(BoardBuilderError::UnexpectedTiles(numbers)) => assert_eq!(numbers, set(&[1, 4])),
        other => panic!("expected unexpected tiles, got {other:?}"),
    }
}

#[test]
fn tile_numbers_out_of_range_are_unexpected() {
    match validate_tile_numbers(&tiles(&[1, 3, 5])) {
        Err(BoardBuilderError::UnexpectedTiles(numbers)) => assert_eq!(numbers, set(&[5])),
        other => panic!("expected unexpected tiles, got {other:?}"),
    }
    match validate_tile_numbers(&tiles(&[0])) {
        Err(BoardBuilderError::UnexpectedTiles(numbers)) => assert_eq!(numbers, set(&[0])),
        other => panic!("expected unexpected tiles, got {other:?}"),
    }
    match validate_tile_numbers(&tiles(&[2, 3, 3, 9])) {
        Err(BoardBuilderError::UnexpectedTiles(numbers)) => assert_eq!(numbers, set(&[3, 9])),
        other => panic!("expected unexpected tiles, got {other:?}"),
    }
}

#[test]
fn tile_numbers_stop_at_255() {
    // 256 tiles cannot all carry a number from 1 to 255
    let all: Vec<u8> = (0..=255).collect();
    match validate_tile_numbers(&tiles(&all)) {
        Err(BoardBuilderError::UnexpectedTiles(numbers)) => assert_eq!(numbers, set(&[0])),
        other => panic!("expected unexpected tiles, got {other:?}"),
    }
    let mut more: Vec<u8> = (1..=255).collect();
    more.push(7);
    match validate_tile_numbers(&tiles(&more)) {
        Err(BoardBuilderError::UnexpectedTiles(numbers)) => assert_eq!(numbers, set(&[7])),
        other => panic!("expected unexpected tiles, got {other:?}"),
    }
    let many: Vec<u8> = (0..600).map(|n| (n % 256) as u8).collect();
    match validate_tile_numbers(&tiles(&many)) {
        Err(BoardBuilderError::UnexpectedTiles(numbers)) => {
            assert_eq!(numbers, (0..=255).collect::<HashSet<u8>>());
        }
        other => panic!("expected unexpected tiles, got {other:?}"),
    }
}

#[test]
fn build_orders_the_tiles_by_number() {
    let numbers = [3u8, 1, 4, 2];
    let board = builder(2, 2, rect(0, 0, 200, 200), &numbers)
        .build(Canvas::new(200, 200, rgba(9, 9, 9, 255)), icons(&numbers))
        .expect("the description is in order");
    assert_eq!((board.rows, board.cols), (2, 2));
    assert_eq!(board.content_rect, (0, 0, 200, 200));
    assert_eq!(board.tile_size, 50);
    assert_eq!(board.image.dimensions(), (200, 200));
    assert_eq!(board.image.get_pixel(0, 0), Some(rgba(9, 9, 9, 255)));
    assert_eq!(board.tiles.len(), 4);
    for (index, tile) in board.tiles.iter().enumerate() {
        let n = index as u8 + 1;
        assert_eq!(tile.number, n);
        assert_eq!(tile.name, format!("tile {n}"));
        assert_eq!(tile.unlocked, n % 2 == 1);
        assert_eq!(tile.image.get_pixel(0, 0), Some(rgba(n, n, n, 255)));
    }
    assert!(board.check_valid());
}

#[test]
fn build_orders_255_tiles() {
    let numbers: Vec<u8> = (1..=255).rev().collect();
    let board = builder(15, 17, rect(0, 0, 850, 750), &numbers)
        .build(Canvas::new(850, 750, rgba(9, 9, 9, 255)), icons(&numbers))
        .expect("the description is in order");
    assert_eq!(board.tiles.len(), 255);
    for (index, tile) in board.tiles.iter().enumerate() {
        let n = index as u8 + 1;
        assert_eq!(tile.number, n);
        assert_eq!(tile.image.get_pixel(0, 0), Some(rgba(n, n, n, 255)));
    }
}

#[test]
fn build_refuses_256_tiles() {
    let numbers: Vec<u8> = (0..=255).rev().collect();
    let r = builder(16, 16, rect(0, 0, 800, 800), &numbers)
        .build(Canvas::new(800, 800, rgba(9, 9, 9, 255)), icons(&numbers));
    match r {
        Err(BoardBuilderError::UnexpectedTiles(numbers)) => assert_eq!(numbers, set(&[0])),
        _ => panic!("expected unexpected tiles"),
    }
}

#[test]
fn build_reports_the_first_rule_broken() {
    let background = || Canvas::new(200, 200, rgba(9, 9, 9, 255));
    // too few tiles, and the numbering and the rectangle are wrong as well
    let r = builder(2, 2, rect(0, 0, 500, 500), &[1, 1, 7]).build(background(), icons(&[1, 1, 7]));
    match r {
        Err(BoardBuilderError::WrongNumberOfTiles { expected, actual }) => {
            assert_eq!((expected, actual), (4, 3));
        }
        _ => panic!("expected a wrong number of tiles"),
    }
    // the numbering, and the rectangle is wrong as well
    let r =
        builder(2, 2, rect(0, 0, 500, 500), &[1, 2, 2, 9]).build(background(), icons(&[1, 2, 2, 9]));
    match r {
        Err(BoardBuilderError::UnexpectedTiles(numbers)) => assert_eq!(numbers, set(&[2, 9])),
        _ => panic!("expected unexpected tiles"),
    }
    // the rectangle alone
    let r =
        builder(2, 2, rect(0, 0, 500, 500), &[1, 2, 3, 4]).build(background(), icons(&[1, 2, 3, 4]));
    match r {
        Err(BoardBuilderError::InvalidDimensions { width, height, content_rect }) => {
            assert_eq!((width, height, content_rect), (200, 200, rect(0, 0, 500, 500)));
        }
        _ => panic!("expected invalid dimensions"),
    }
    let r =
        builder(2, 2, rect(0, 0, 99, 200), &[1, 2, 3, 4]).build(background(), icons(&[1, 2, 3, 4]));
    assert!(matches!(r, Err(BoardBuilderError::InvalidDimensions { .. })));
}

#[test]
fn build_of_an_empty_grid_is_an_empty_board() {
    let board = builder(0, 0, rect(0, 0, 10, 10), &[])
        .build(Canvas::new(10, 10, rgba(9, 9, 9, 255)), Vec::new())
        .expect("nothing is wrong with no tiles");
    assert!(board.tiles.is_empty());
    // but no board to render
    assert!(!board.check_valid());
}
