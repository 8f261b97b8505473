//! Descriptions of boards as they come from a board file, and the rules a
//! description must keep before a board is made of it.

use vstd::prelude::*;
use std::collections::HashSet;
use vstd::set_lib::{
    lemma_int_range, lemma_len_subset, lemma_map_size, lemma_subset_equality, set_int_range,
};
use crate::board::{Board, grid_fits};
use crate::canvas::Canvas;
use crate::error::AppError;
use crate::tile::{Tile, TileRenderOptions};

verus! {

broadcast use vstd::std_specs::hash::group_hash_axioms;

/// Why a description cannot become a board.
#[derive(Debug)]
pub enum BoardBuilderError {
    /// An image of the board could not be had.
    Wrapped(AppError),
    /// The grid has `expected` cells, the description `actual` tiles.
    WrongNumberOfTiles { expected: usize, actual: usize },
    /// Tiles must be numbered consecutively from 1; these numbers have no tile.
    MissingTiles(HashSet<u8>),
    /// Tiles must be numbered consecutively from 1; these numbers are out of
    /// range or used more than once.
    UnexpectedTiles(HashSet<u8>),
    /// An image of `width` by `height` pixels cannot carry the content
    /// rectangle, or the content rectangle cannot carry the grid.
    InvalidDimensions { width: u32, height: u32, content_rect: ContentRect },
}

/// The description of one tile.
#[derive(Debug)]
pub struct TileBuilder {
    pub number: u8,
    pub name: String,
    /// Where the icon comes from: a path or a URL.
    pub image: String,
    pub unlocked: bool,
}

/// The part of the background the tiles are spread over: from `(x1, y1)` to
/// `(x2, y2)`, right and bottom exclusive.
#[derive(Clone, Copy, Debug, PartialEq, Eq, Structural)]
pub struct ContentRect {
    pub x1: u32,
    pub y1: u32,
    pub x2: u32,
    pub y2: u32,
}

/// The description of a board.
#[derive(Debug)]
pub struct BoardBuilder {
    pub rows: usize,
    pub cols: usize,
    pub content_rect: ContentRect,
    pub tile_size: u32,
    pub tile_render_options: TileRenderOptions,
    /// Where the background comes from: a path or a URL.
    pub image: String,
    pub tiles: Vec<TileBuilder>,
}

/// The content rectangle is not empty, lies within an image of `width` by
/// `height` pixels, and has room for `rows` by `cols` tiles of side
/// `tile_size`.
pub open spec fn content_rect_fits(
    width: int,
    height: int,
    content_rect: ContentRect,
    tile_size: u32,
    rows: usize,
    cols: usize,
) -> bool {
    &&& content_rect.x1 < content_rect.x2
    &&& content_rect.y1 < content_rect.y2
    &&& content_rect.x2 <= width
    &&& content_rect.y2 <= height
    &&& tile_size * cols <= content_rect.x2 - content_rect.x1
    &&& tile_size * rows <= content_rect.y2 - content_rect.y1
}

/// Accepts a content rectangle exactly if [`content_rect_fits`]; the error
/// names the dimensions and the rectangle.
pub fn validate_content_rect(
    dimensions: (u32, u32),
    content_rect: &ContentRect,
    tile_size: u32,
    rows: usize,
    cols: usize,
) -> (r: Result<(), BoardBuilderError>)
    ensures
        r is Ok <==> content_rect_fits(
            dimensions.0 as int,
            dimensions.1 as int,
            *content_rect,
            tile_size,
            rows,
            cols,
        ),
        r matches Err(e) ==> e == (BoardBuilderError::InvalidDimensions {
            width: dimensions.0,
            height: dimensions.1,
            content_rect: *content_rect,
        }),
{
    let (width, height) = dimensions;
    if content_rect.x1 >= content_rect.x2 || content_rect.y1 >= content_rect.y2 {
        return Err(
            BoardBuilderError::InvalidDimensions { width, height, content_rect: *content_rect },
        );
    }
    if content_rect.x2 > width || content_rect.y2 > height {
        return Err(
            BoardBuilderError::InvalidDimensions { width, height, content_rect: *content_rect },
        );
    }
    let rect_width = content_rect.x2 - content_rect.x1;
    let rect_height = content_rect.y2 - content_rect.y1;
    assert(tile_size * cols <= 0xffff_ffff * 0xffff_ffff_ffff_ffff && tile_size * rows
        <= 0xffff_ffff * 0xffff_ffff_ffff_ffff) by (nonlinear_arith)
        requires
            0 <= cols <= 0xffff_ffff_ffff_ffff,
            0 <= rows <= 0xffff_ffff_ffff_ffff,
            0 <= tile_size <= 0xffff_ffff,
    ;
    let tile_width = tile_size as u128 * cols as u128;
    let tile_height = tile_size as u128 * rows as u128;
    if tile_width > rect_width as u128 || tile_height > rect_height as u128 {
        return Err(
            BoardBuilderError::InvalidDimensions { width, height, content_rect: *content_rect },
        );
    }
    Ok(())
}

/// Accepts the tiles exactly if there are `rows * cols` of them; the error
/// names both counts.
pub fn validate_tile_count(rows: usize, cols: usize, tiles: &[TileBuilder]) -> (r: Result<
    (),
    BoardBuilderError,
>)
    requires
        rows * cols <= usize::MAX,
    ensures
        r is Ok <==> tiles@.len() == rows * cols,
        r matches Err(e) ==> (e matches BoardBuilderError::WrongNumberOfTiles { expected, actual }
            && expected == rows * cols && actual == tiles@.len()),
{
    let expected = rows * cols;
    let actual = tiles.len();
    if expected != actual {
        return Err(BoardBuilderError::WrongNumberOfTiles { expected, actual });
    }
    Ok(())
}

/// The numbers of a sequence of tiles, in order.
pub open spec fn numbers_of(tiles: Seq<TileBuilder>) -> Seq<u8> {
    Seq::new(tiles.len(), |i: int| tiles[i].number)
}

/// The numbers that `count` tiles are to carry: 1 up to `count`. A number
/// has eight bits, so more than 255 tiles cannot all carry one.
pub open spec fn expected_numbers(count: nat) -> Set<u8> {
    Set::new(|v: u8| 1 <= v <= count)
}

/// `v` stands at two places of `numbers`.
pub open spec fn occurs_twice(numbers: Seq<u8>, v: u8) -> bool {
    exists|i: int, j: int|
        0 <= i < j < numbers.len() && #[trigger] numbers[i] == v && #[trigger] numbers[j] == v
}

/// The numbers that should be there and are not.
pub open spec fn missing_numbers(numbers: Seq<u8>, count: nat) -> Set<u8> {
    Set::new(|v: u8| expected_numbers(count).contains(v) && !numbers.contains(v))
}

/// The numbers that are there and should not be: out of range, or used more
/// than once.
pub open spec fn unexpected_numbers(numbers: Seq<u8>, count: nat) -> Set<u8> {
    Set::new(
        |v: u8|
            (numbers.contains(v) && !expected_numbers(count).contains(v)) || occurs_twice(
                numbers,
                v,
            ),
    )
}

proof fn lemma_number_taken(numbers: Seq<u8>, count: nat, v: u8)
    requires
        expected_numbers(count).contains(v),
        !numbers.contains(v),
    ensures
        missing_numbers(numbers.push(v), count) == missing_numbers(numbers, count).remove(v),
        unexpected_numbers(numbers.push(v), count) == unexpected_numbers(numbers, count),
{
    let more = numbers.push(v);
    assert(more[numbers.len() as int] == v);
    assert forall|u: u8| more.contains(u) <==> (numbers.contains(u) || u == v) by {
        if numbers.contains(u) {
            let i = choose|i: int| 0 <= i < numbers.len() && numbers[i] == u;
            assert(more[i] == u);
        }
        if more.contains(u) {
            let i = choose|i: int| 0 <= i < more.len() && more[i] == u;
            if i < numbers.len() {
                assert(numbers[i] == u);
            }
        }
    }
    assert forall|u: u8| occurs_twice(more, u) <==> occurs_twice(numbers, u) by {
        if occurs_twice(numbers, u) {
            let (i, j) = choose|i: int, j: int|
                0 <= i < j < numbers.len() && #[trigger] numbers[i] == u && #[trigger] numbers[j]
                    == u;
            assert(more[i] == u && more[j] == u);
        }
        if occurs_twice(more, u) {
            let (i, j) = choose|i: int, j: int|
                0 <= i < j < more.len() && #[trigger] more[i] == u && #[trigger] more[j] == u;
            assert(numbers[i] == u);
            if j == numbers.len() {
                assert(numbers.contains(v));
            } else {
                assert(numbers[j] == u);
            }
        }
    }
    assert(missing_numbers(more, count) =~= missing_numbers(numbers, count).remove(v));
    assert(unexpected_numbers(more, count) =~= unexpected_numbers(numbers, count));
}

proof fn lemma_number_refused(numbers: Seq<u8>, count: nat, v: u8)
    requires
        !expected_numbers(count).contains(v) || numbers.contains(v),
    ensures
        missing_numbers(numbers.push(v), count) == missing_numbers(numbers, count),
        unexpected_numbers(numbers.push(v), count) == unexpected_numbers(numbers, count).insert(v),
{
    let more = numbers.push(v);
    assert(more[numbers.len() as int] == v);
    assert forall|u: u8| more.contains(u) <==> (numbers.contains(u) || u == v) by {
        if numbers.contains(u) {
            let i = choose|i: int| 0 <= i < numbers.len() && numbers[i] == u;
            assert(more[i] == u);
        }
        if more.contains(u) {
            let i = choose|i: int| 0 <= i < more.len() && more[i] == u;
            if i < numbers.len() {
                assert(numbers[i] == u);
            }
        }
    }
    assert forall|u: u8| occurs_twice(more, u) <==> (occurs_twice(numbers, u) || (u == v
        && numbers.contains(v))) by {
        if occurs_twice(numbers, u) {
            let (i, j) = choose|i: int, j: int|
                0 <= i < j < numbers.len() && #[trigger] numbers[i] == u && #[trigger] numbers[j]
                    == u;
            assert(more[i] == u && more[j] == u);
        }
        if u == v && numbers.contains(v) {
            let i = choose|i: int| 0 <= i < numbers.len() && numbers[i] == v;
            assert(more[i] == u && more[numbers.len() as int] == u);
        }
        if occurs_twice(more, u) {
            let (i, j) = choose|i: int, j: int|
                0 <= i < j < more.len() && #[trigger] more[i] == u && #[trigger] more[j] == u;
            assert(numbers[i] == u);
            if j < numbers.len() {
                assert(numbers[j] == u);
            }
        }
    }
    assert(missing_numbers(more, count) =~= missing_numbers(numbers, count));
    assert(unexpected_numbers(more, count) =~= unexpected_numbers(numbers, count).insert(v));
}

fn expected_set(count: usize) -> (set: HashSet<u8>)
    ensures
        set@ == expected_numbers(count as nat),
{
    let mut set: HashSet<u8> = HashSet::new();
    let mut v: u8 = 0;
    loop
        invariant_except_break
            set@ == Set::new(|u: u8| u < v && expected_numbers(count as nat).contains(u)),
        ensures
            set@ == expected_numbers(count as nat),
        decreases 255 - v,
    {
        if 1 <= v && v as usize <= count {
            set.insert(v);
        }
        if v == 255 {
            assert(set@ =~= expected_numbers(count as nat));
            break ;
        }
        v += 1;
        assert(set@ =~= Set::new(|u: u8| u < v && expected_numbers(count as nat).contains(u)));
    }
    set
}

/// Accepts the tiles exactly if they carry the numbers from 1 to their
/// count, each once.
///
/// The error names every number that is out of that range or used twice.
/// Where there is none, no number is without a tile either (see
/// [`lemma_nothing_unexpected_nothing_missing`]), so missing numbers are
/// never the reason.
pub fn validate_tile_numbers(tiles: &[TileBuilder]) -> (r: Result<(), BoardBuilderError>)
    ensures
        r is Ok <==> well_numbered(numbers_of(tiles@)),
        r is Ok <==> unexpected_numbers(numbers_of(tiles@), tiles@.len()).is_empty(),
        r matches Err(e) ==> (e matches BoardBuilderError::UnexpectedTiles(unexpected)
            && unexpected@ == unexpected_numbers(numbers_of(tiles@), tiles@.len())),
{
    let count = tiles.len();
    let mut missing = expected_set(count);
    let mut unexpected: HashSet<u8> = HashSet::new();
    let ghost numbers = numbers_of(tiles@);
    assert(missing@ =~= missing_numbers(numbers.take(0), count as nat));
    assert(unexpected@ =~= unexpected_numbers(numbers.take(0), count as nat));
    let mut index: usize = 0;
    while index < count
        invariant
            count == tiles@.len(),
            numbers == numbers_of(tiles@),
            index <= count,
            missing@ == missing_numbers(numbers.take(index as int), count as nat),
            unexpected@ == unexpected_numbers(numbers.take(index as int), count as nat),
        decreases count - index,
    {
        let number = tiles[index].number;
        proof {
            assert(numbers.take(index + 1) =~= numbers.take(index as int).push(number));
            if missing@.contains(number) {
                lemma_number_taken(numbers.take(index as int), count as nat, number);
            } else {
                lemma_number_refused(numbers.take(index as int), count as nat, number);
            }
        }
        if !missing.remove(&number) {
            unexpected.insert(number);
        }
        index += 1;
    }
    assert(numbers.take(count as int) =~= numbers);
    if !unexpected.is_empty() {
        return Err(BoardBuilderError::UnexpectedTiles(unexpected));
    }
    proof {
        lemma_nothing_unexpected_nothing_missing(numbers);
    }
    if !missing.is_empty() {
        return Err(BoardBuilderError::MissingTiles(missing));
    }
    Ok(())
}

/// The numbers are in order: they are the numbers from 1 to their count,
/// each once.
pub open spec fn well_numbered(numbers: Seq<u8>) -> bool {
    &&& unexpected_numbers(numbers, numbers.len()).is_empty()
    &&& missing_numbers(numbers, numbers.len()).is_empty()
}

/// There are as many expected numbers as tiles, but no more than 255.
proof fn lemma_expected_count(count: nat)
    ensures
        expected_numbers(count).finite(),
        expected_numbers(count).len() == if count >= 255 {
            255
        } else {
            count
        },
{
    let (lo, hi): (int, int) = if count >= 255 {
        (1, 256)
    } else {
        (1, count as int + 1)
    };
    let narrow = |i: int| i as u8;
    lemma_int_range(lo, hi);
    assert(set_int_range(lo, hi).map(narrow) =~= expected_numbers(count)) by {
        assert forall|v: u8| expected_numbers(count).contains(v) implies set_int_range(lo, hi).map(
            narrow,
        ).contains(v) by {
            assert(set_int_range(lo, hi).contains(v as int));
            assert(narrow(v as int) == v);
        }
    }
    lemma_map_size(set_int_range(lo, hi), expected_numbers(count), narrow);
}

/// Tiles that carry no number out of range and none twice carry every
/// number they should: no numbering is refused for a missing number alone.
pub proof fn lemma_nothing_unexpected_nothing_missing(numbers: Seq<u8>)
    requires
        unexpected_numbers(numbers, numbers.len()).is_empty(),
    ensures
        missing_numbers(numbers, numbers.len()).is_empty(),
{
    let count = numbers.len();
    let unexpected = unexpected_numbers(numbers, count);
    let expected = expected_numbers(count);
    let values = numbers.to_set();
    assert forall|i: int, j: int|
        0 <= i < numbers.len() && 0 <= j < numbers.len() && i != j implies numbers[i]
        != numbers[j] by {
        if numbers[i] == numbers[j] {
            let v = numbers[i];
            if i < j {
                assert(occurs_twice(numbers, v));
            } else {
                assert(numbers[j] == v && numbers[i] == v);
                assert(occurs_twice(numbers, v));
            }
            assert(unexpected.contains(v));
        }
    }
    numbers.unique_seq_to_set();
    vstd::seq_lib::seq_to_set_is_finite(numbers);
    lemma_expected_count(count);
    assert(values.subset_of(expected)) by {
        assert forall|v: u8| values.contains(v) implies expected.contains(v) by {
            assert(numbers.contains(v));
            assert(!unexpected.contains(v));
        }
    }
    lemma_len_subset(values, expected);
    lemma_subset_equality(values, expected);
    assert forall|v: u8| !missing_numbers(numbers, count).contains(v) by {
        if expected.contains(v) {
            assert(values.contains(v));
        }
    }
    assert(missing_numbers(numbers, count) =~= Set::empty());
}

/// The place of the tile numbered `number` among the tiles in order.
pub open spec fn rank(number: u8) -> int {
    number - 1
}

/// One of `numbers` has the rank `place`.
pub open spec fn ranked(numbers: Seq<u8>, place: int) -> bool {
    exists|i: int| 0 <= i < numbers.len() && rank(#[trigger] numbers[i]) == place
}

/// Numbers in order are pairwise distinct, at most 255, and the rank of
/// each is a place among them; every place is the rank of one of them.
pub proof fn lemma_well_numbered(numbers: Seq<u8>)
    requires
        well_numbered(numbers),
    ensures
        numbers.no_duplicates(),
        numbers.len() <= 255,
        forall|i: int| 0 <= i < numbers.len() ==> 0 <= rank(#[trigger] numbers[i]) < numbers.len(),
        forall|p: int| 0 <= p < numbers.len() ==> #[trigger] ranked(numbers, p),
{
    let count = numbers.len();
    let unexpected = unexpected_numbers(numbers, count);
    let missing = missing_numbers(numbers, count);
    assert forall|i: int, j: int|
        0 <= i < numbers.len() && 0 <= j < numbers.len() && i != j implies numbers[i]
        != numbers[j] by {
        if numbers[i] == numbers[j] {
            let v = numbers[i];
            if i < j {
                assert(occurs_twice(numbers, v));
            } else {
                assert(numbers[j] == v && numbers[i] == v);
                assert(occurs_twice(numbers, v));
            }
            assert(unexpected.contains(v));
        }
    }
    // no more distinct numbers than there are numbers to carry
    numbers.unique_seq_to_set();
    let values = numbers.to_set();
    vstd::seq_lib::seq_to_set_is_finite(numbers);
    lemma_expected_count(count);
    assert(values.subset_of(expected_numbers(count))) by {
        assert forall|v: u8| values.contains(v) implies expected_numbers(count).contains(v) by {
            assert(numbers.contains(v));
            assert(!unexpected.contains(v));
        }
    }
    lemma_len_subset(values, expected_numbers(count));
    assert forall|i: int| 0 <= i < numbers.len() implies 0 <= rank(#[trigger] numbers[i])
        < numbers.len() by {
        let v = numbers[i];
        assert(numbers.contains(v));
        assert(!unexpected.contains(v));
        assert(expected_numbers(count).contains(v));
    }
    assert forall|p: int| 0 <= p < numbers.len() implies #[trigger] ranked(numbers, p) by {
        let v: u8 = (p + 1) as u8;
        assert(expected_numbers(count).contains(v));
        assert(!missing.contains(v));
        assert(numbers.contains(v));
        let i = choose|i: int| 0 <= i < numbers.len() && numbers[i] == v;
        assert(rank(numbers[i]) == p);
    }
}

/// More than 255 tiles are never in order: one of them carries a number
/// out of range, or two carry the same.
pub proof fn lemma_too_many_tiles(numbers: Seq<u8>)
    requires
        numbers.len() > 255,
    ensures
        !unexpected_numbers(numbers, numbers.len()).is_empty(),
{
    if unexpected_numbers(numbers, numbers.len()).is_empty() {
        lemma_nothing_unexpected_nothing_missing(numbers);
        lemma_well_numbered(numbers);
    }
}

/// The tile a description and its icon make.
pub open spec fn tile_of(builder: TileBuilder, image: Canvas) -> Tile {
    Tile { number: builder.number, name: builder.name, image, unlocked: builder.unlocked }
}

impl BoardBuilder {
    /// The description keeps the rules of a board on a background of the
    /// given dimensions.
    pub open spec fn accepted(&self, width: int, height: int) -> bool {
        &&& self.tiles@.len() == self.rows * self.cols
        &&& well_numbered(numbers_of(self.tiles@))
        &&& content_rect_fits(
            width,
            height,
            self.content_rect,
            self.tile_size,
            self.rows,
            self.cols,
        )
    }

    /// Makes a board of the description, its background and the icons of
    /// its tiles, `images[i]` being the icon of `tiles[i]`.
    ///
    /// The tiles of the board stand in the order of their numbers: the tile at
    /// place `k`, counting from 0, carries the number `k + 1`. The rules
    /// are checked in this order: the number of tiles, their numbering, the
    /// content rectangle; the first one broken is reported.
    pub fn build(self, background: Canvas, images: Vec<Canvas>) -> (r: Result<
        Board,
        BoardBuilderError,
    >)
        requires
            self.rows * self.cols <= usize::MAX,
            images@.len() == self.tiles@.len(),
        ensures
            r is Ok <==> self.accepted(
                crate::canvas::width_of(background@),
                crate::canvas::height_of(background@),
            ),
            match r {
                Ok(board) => {
                    &&& board.rows == self.rows
                    &&& board.cols == self.cols
                    &&& board.tile_size == self.tile_size
                    &&& board.content_rect == (
                        self.content_rect.x1,
                        self.content_rect.y1,
                        self.content_rect.x2,
                        self.content_rect.y2,
                    )
                    &&& board.image == background
                    &&& board.tiles@.len() == self.tiles@.len()
                    &&& forall|k: int|
                        0 <= k < board.tiles@.len() ==> (#[trigger] board.tiles@[k]).number == k
                            + 1
                    &&& forall|i: int|
                        0 <= i < self.tiles@.len() ==> board.tiles@[rank(self.tiles@[i].number)]
                            == tile_of(#[trigger] self.tiles@[i], images@[i])
                    &&& self.rows >= 1 && self.cols >= 1 ==> board.valid()
                },
                Err(BoardBuilderError::WrongNumberOfTiles { expected, actual }) => {
                    &&& self.tiles@.len() != self.rows * self.cols
                    &&& expected == self.rows * self.cols
                    &&& actual == self.tiles@.len()
                },
                Err(BoardBuilderError::UnexpectedTiles(unexpected)) => {
                    &&& self.tiles@.len() == self.rows * self.cols
                    &&& unexpected@ == unexpected_numbers(
                        numbers_of(self.tiles@),
                        self.tiles@.len(),
                    )
                    &&& !unexpected@.is_empty()
                },
                Err(BoardBuilderError::MissingTiles(_)) => false,
                Err(BoardBuilderError::InvalidDimensions { width, height, content_rect }) => {
                    &&& self.tiles@.len() == self.rows * self.cols
                    &&& well_numbered(numbers_of(self.tiles@))
                    &&& width == crate::canvas::width_of(background@)
                    &&& height == crate::canvas::height_of(background@)
                    &&& content_rect == self.content_rect
                },
                Err(BoardBuilderError::Wrapped(_)) => false,
            },
    {
        let rows = self.rows;
        let cols = self.cols;
        let content_rect = self.content_rect;
        let tile_size = self.tile_size;
        let mut tiles = self.tiles;
        let mut images = images;
        match validate_tile_count(rows, cols, tiles.as_slice()) {
            Err(e) => { return Err(e); },
            Ok(()) => {},
        }
        match validate_tile_numbers(tiles.as_slice()) {
            Err(e) => { return Err(e); },
            Ok(()) => {},
        }
        let dimensions = background.dimensions();
        match validate_content_rect(dimensions, &content_rect, tile_size, rows, cols) {
            Err(e) => { return Err(e); },
            Ok(()) => {},
        }
        let count = tiles.len();
        let ghost described = tiles@;
        let ghost icons = images@;
        let ghost numbers = numbers_of(described);
        proof {
            lemma_well_numbered(numbers);
        }
        // a slot for every tile, the last slot for the first tile
        let mut slots: Vec<Option<Tile>> = Vec::new();
        while slots.len() < count
            invariant
                slots@.len() <= count,
                forall|p: int| 0 <= p < slots@.len() ==> slots@[p] is None,
            decreases count - slots@.len(),
        {
            slots.push(None);
        }
        let mut left = count;
        while left > 0
            invariant
                count == described.len(),
                count == icons.len(),
                count <= 255,
                numbers == numbers_of(described),
                numbers.no_duplicates(),
                forall|i: int|
                    0 <= i < count ==> 0 <= rank(#[trigger] numbers[i]) < count,
                left <= count,
                tiles@ == described.take(left as int),
                images@ == icons.take(left as int),
                slots@.len() == count,
                forall|i: int|
                    left <= i < count ==> slots@[count - 1 - rank(numbers[i])]
                        == Some(tile_of(#[trigger] described[i], icons[i])),
            decreases left,
        {
            let builder = tiles.pop().unwrap();
            let image = images.pop().unwrap();
            left -= 1;
            assert(builder == described[left as int]);
            assert(image == icons[left as int]);
            assert(numbers[left as int] == builder.number);
            let place = (builder.number - 1) as usize;
            let tile = Tile {
                number: builder.number,
                name: builder.name,
                image,
                unlocked: builder.unlocked,
            };
            slots.set(count - 1 - place, Some(tile));
            assert(tiles@ =~= described.take(left as int));
            assert(images@ =~= icons.take(left as int));
            assert forall|i: int| left <= i < count implies slots@[count - 1 - rank(numbers[i])]
                == Some(tile_of(#[trigger] described[i], icons[i])) by {
                if i != left {
                    assert(numbers[i] != numbers[left as int]);
                }
            }
        }
        let mut ordered: Vec<Tile> = Vec::new();
        while slots.len() > 0
            invariant
                count == described.len(),
                count == icons.len(),
                numbers == numbers_of(described),
                forall|i: int|
                    0 <= i < count ==> 0 <= rank(#[trigger] numbers[i]) < count,
                forall|p: int| 0 <= p < count ==> #[trigger] ranked(numbers, p),
                slots@.len() + ordered@.len() == count,
                forall|i: int|
                    0 <= i < count && rank(numbers[i]) >= ordered@.len()
                        ==> slots@[count - 1 - rank(numbers[i])] == Some(
                        tile_of(#[trigger] described[i], icons[i]),
                    ),
                forall|i: int|
                    0 <= i < count && rank(numbers[i]) < ordered@.len()
                        ==> ordered@[rank(numbers[i])] == tile_of(
                        #[trigger] described[i],
                        icons[i],
                    ),
            decreases slots@.len(),
        {
            let ghost place = ordered@.len() as int;
            assert(ranked(numbers, place));
            let ghost i = choose|i: int|
                0 <= i < count && rank(#[trigger] numbers[i]) == place;
            assert(slots@[count - 1 - place] == Some(tile_of(described[i], icons[i])));
            let slot = slots.pop().unwrap();
            let tile = slot.unwrap();
            ordered.push(tile);
        }
        let board = Board {
            rows,
            cols,
            content_rect: (content_rect.x1, content_rect.y1, content_rect.x2, content_rect.y2),
            tile_size,
            image: background,
            tiles: ordered,
        };
        proof {
            assert(tile_size * cols == cols * tile_size && tile_size * rows == rows * tile_size)
                by (nonlinear_arith);
            assert forall|k: int| 0 <= k < board.tiles@.len() implies (
            #[trigger] board.tiles@[k]).number == k + 1 by {
                assert(ranked(numbers, k));
                let i = choose|i: int| 0 <= i < count && rank(#[trigger] numbers[i]) == k;
                assert(board.tiles@[k] == tile_of(described[i], icons[i]));
            }
        }
        Ok(board)
    }
}

} // verus!
