//! Boards: a background image carrying a grid of tiles.

use vstd::prelude::*;
use vstd::arithmetic::div_mod::{lemma_fundamental_div_mod, lemma_fundamental_div_mod_converse};
use crate::canvas::shows_opaque;
use crate::canvas::{
    Canvas, covers, filled, height_of, holds, is_grid, pasted, same_shape, width_of,
};
use crate::palette::{Color, transparent};
use crate::tile::{Tile, TileRenderer, lemma_exact_icon_is_shown};

verus! {

/// A board to render.
pub struct Board {
    pub rows: usize,
    pub cols: usize,
    /// The rectangle `(x1, y1, x2, y2)` of the background the tiles are
    /// spread over.
    pub content_rect: (u32, u32, u32, u32),
    /// Side length of a tile.
    pub tile_size: u32,
    /// The background.
    pub image: Canvas,
    /// The tiles, row by row.
    pub tiles: Vec<Tile>,
}

/// Where the tiles of a grid go: the first at `(x, y)`, each next one
/// `x_step` further right, each next row `y_step` further down.
#[derive(Clone, Copy, Debug, PartialEq, Eq, Structural)]
pub struct Grid {
    pub x: u32,
    pub y: u32,
    pub cols: usize,
    pub x_step: u32,
    pub y_step: u32,
}

impl Grid {
    /// Top-left corner of the tile with the given index, counting row by row
    /// from 0.
    pub open spec fn origin(&self, index: int) -> (int, int) {
        (
            self.x + (index % self.cols as int) * self.x_step,
            self.y + (index / self.cols as int) * self.y_step,
        )
    }
}

/// `rows` by `cols` tiles of side `tile_size` fit into the content rectangle.
pub open spec fn grid_fits(
    rows: usize,
    cols: usize,
    content_rect: (u32, u32, u32, u32),
    tile_size: u32,
) -> bool {
    let (x1, y1, x2, y2) = content_rect;
    &&& rows >= 1
    &&& cols >= 1
    &&& x1 <= x2
    &&& y1 <= y2
    &&& cols * tile_size <= x2 - x1
    &&& rows * tile_size <= y2 - y1
}

/// The gap that follows each of `count` tiles of side `tile_size` spread
/// over a span of `content` pixels: the free space divided evenly, the
/// remainder left over at the far end.
pub open spec fn gap(content: int, count: int, tile_size: int) -> int {
    (content - count * tile_size) / count
}

/// The grid of a board: it starts in the top-left corner of the content
/// rectangle, and every tile is followed by its share of the free space.
pub open spec fn spacing(
    rows: usize,
    cols: usize,
    content_rect: (u32, u32, u32, u32),
    tile_size: u32,
) -> Grid {
    let (x1, y1, x2, y2) = content_rect;
    Grid {
        x: x1,
        y: y1,
        cols,
        x_step: (tile_size + gap(x2 - x1, cols as int, tile_size as int)) as u32,
        y_step: (tile_size + gap(y2 - y1, rows as int, tile_size as int)) as u32,
    }
}

/// A tile and the gap after it, `count` times over, stay within the span.
pub proof fn lemma_steps_fit(content: int, count: int, tile_size: int)
    requires
        count >= 1,
        tile_size >= 0,
        count * tile_size <= content,
    ensures
        gap(content, count, tile_size) >= 0,
        count * (tile_size + gap(content, count, tile_size)) <= content,
{
    let free = content - count * tile_size;
    lemma_fundamental_div_mod(free, count);
    assert(0 <= free % count < count);
    assert(free / count >= 0) by (nonlinear_arith)
        requires
            free >= 0,
            count >= 1,
    ;
    assert(count * (tile_size + free / count) == count * tile_size + count * (free / count))
        by (nonlinear_arith);
}

/// Every tile of a grid that fits lies within the content rectangle.
pub proof fn lemma_tiles_lie_in_the_content_rect(
    rows: usize,
    cols: usize,
    content_rect: (u32, u32, u32, u32),
    tile_size: u32,
    index: int,
)
    requires
        grid_fits(rows, cols, content_rect, tile_size),
        0 <= index < rows * cols,
    ensures
        ({
            let (x, y) = spacing(rows, cols, content_rect, tile_size).origin(index);
            &&& content_rect.0 <= x
            &&& x + tile_size <= content_rect.2
            &&& content_rect.1 <= y
            &&& y + tile_size <= content_rect.3
        }),
{
    let (x1, y1, x2, y2) = content_rect;
    let col = index % cols as int;
    let row = index / cols as int;
    let x_step = tile_size + gap(x2 - x1, cols as int, tile_size as int);
    let y_step = tile_size + gap(y2 - y1, rows as int, tile_size as int);
    lemma_steps_fit(x2 - x1, cols as int, tile_size as int);
    lemma_steps_fit(y2 - y1, rows as int, tile_size as int);
    lemma_fundamental_div_mod(index, cols as int);
    assert(0 <= col < cols);
    assert(0 <= row < rows) by (nonlinear_arith)
        requires
            index == cols * row + col,
            0 <= col < cols,
            0 <= index < rows * cols,
            cols >= 1,
    ;
    assert(0 <= col * x_step && (col + 1) * x_step <= cols * x_step && (col + 1) * x_step == col
        * x_step + x_step) by (nonlinear_arith)
        requires
            0 <= col < cols,
            x_step >= 0,
    ;
    assert(0 <= row * y_step && (row + 1) * y_step <= rows * y_step && (row + 1) * y_step == row
        * y_step + y_step) by (nonlinear_arith)
        requires
            0 <= row < rows,
            y_step >= 0,
    ;
    assert(x_step <= x2 - x1) by (nonlinear_arith)
        requires
            cols >= 1,
            x_step >= 0,
            cols * x_step <= x2 - x1,
    ;
    assert(y_step <= y2 - y1) by (nonlinear_arith)
        requires
            rows >= 1,
            y_step >= 0,
            rows * y_step <= y2 - y1,
    ;
}

/// `base` with the first `n` of `pictures` blended onto it, each at its
/// place in `grid`, in order.
pub open spec fn tiled(
    base: Seq<Seq<Color>>,
    pictures: Seq<Seq<Seq<Color>>>,
    grid: Grid,
    n: nat,
) -> Seq<Seq<Color>>
    decreases n,
{
    if n == 0 {
        base
    } else {
        let (x, y) = grid.origin(n - 1);
        pasted(tiled(base, pictures, grid, (n - 1) as nat), pictures[n - 1], x, y)
    }
}

/// Two tiles of a grid whose steps are no shorter than a tile do not
/// overlap: the later one lies below the earlier one, or in the same row to
/// its right.
pub proof fn lemma_tiles_do_not_overlap(grid: Grid, tile_size: int, earlier: int, later: int)
    requires
        grid.cols >= 1,
        0 <= tile_size <= grid.x_step,
        tile_size <= grid.y_step,
        0 <= earlier < later,
    ensures
        ({
            let (x1, y1) = grid.origin(earlier);
            let (x2, y2) = grid.origin(later);
            y1 + tile_size <= y2 || (y1 == y2 && x1 + tile_size <= x2)
        }),
{
    let cols = grid.cols as int;
    let (r1, c1) = (earlier / cols, earlier % cols);
    let (r2, c2) = (later / cols, later % cols);
    lemma_fundamental_div_mod(earlier, cols);
    lemma_fundamental_div_mod(later, cols);
    assert(0 <= c1 < cols && 0 <= c2 < cols);
    assert(r1 <= r2 && (r1 == r2 ==> c1 < c2)) by (nonlinear_arith)
        requires
            earlier == cols * r1 + c1,
            later == cols * r2 + c2,
            0 <= c1 < cols,
            0 <= c2 < cols,
            earlier < later,
    ;
    let (xs, ys) = (grid.x_step as int, grid.y_step as int);
    if r1 < r2 {
        assert(r1 * ys + ys <= r2 * ys) by (nonlinear_arith)
            requires
                r1 < r2,
                ys >= 0,
        ;
    } else {
        assert(c1 * xs + xs <= c2 * xs) by (nonlinear_arith)
            requires
                c1 < c2,
                xs >= 0,
        ;
    }
}

/// `image` shows every opaque pixel of each of the first `n` of `pictures`
/// at its place in `grid`.
pub open spec fn shows_tiles(
    image: Seq<Seq<Color>>,
    pictures: Seq<Seq<Seq<Color>>>,
    grid: Grid,
    n: nat,
) -> bool {
    forall|k: int|
        0 <= k < n ==> shows_opaque(
            image,
            #[trigger] pictures[k],
            grid.origin(k).0,
            grid.origin(k).1,
        )
}

/// Tiling changes no pixel that no tile covers, and never the shape of the
/// picture.
pub proof fn lemma_tiling_keeps_the_rest(
    base: Seq<Seq<Color>>,
    pictures: Seq<Seq<Seq<Color>>>,
    grid: Grid,
    n: nat,
)
    ensures
        same_shape(tiled(base, pictures, grid, n), base),
        forall|x: int, y: int|
            holds(base, x, y) && (forall|i: int|
                0 <= i < n ==> !covers(
                    #[trigger] pictures[i],
                    grid.origin(i).0,
                    grid.origin(i).1,
                    x,
                    y,
                )) ==> #[trigger] tiled(base, pictures, grid, n)[y][x] == base[y][x],
    decreases n,
{
    if n > 0 {
        let before = tiled(base, pictures, grid, (n - 1) as nat);
        lemma_tiling_keeps_the_rest(base, pictures, grid, (n - 1) as nat);
        let (x0, y0) = grid.origin(n - 1);
        assert forall|x: int, y: int|
            holds(base, x, y) && (forall|i: int|
                0 <= i < n ==> !covers(
                    #[trigger] pictures[i],
                    grid.origin(i).0,
                    grid.origin(i).1,
                    x,
                    y,
                )) implies #[trigger] tiled(base, pictures, grid, n)[y][x] == base[y][x] by {
            assert(!covers(pictures[n - 1], x0, y0, x, y));
            assert(before[y][x] == base[y][x]);
        }
    }
}

/// The ground of a board: its background blended onto a transparent canvas
/// of the same size.
pub open spec fn ground(background: Seq<Seq<Color>>) -> Seq<Seq<Color>> {
    pasted(
        filled(width_of(background), height_of(background), transparent()),
        background,
        0,
        0,
    )
}

/// The grids of a sequence of canvases.
pub open spec fn pictures_of(images: Seq<Canvas>) -> Seq<Seq<Seq<Color>>> {
    Seq::new(images.len(), |i: int| images[i]@)
}

/// Computes [`spacing`].
pub fn compute_spacing(
    rows: usize,
    cols: usize,
    content_rect: (u32, u32, u32, u32),
    tile_size: u32,
) -> (grid: Grid)
    requires
        grid_fits(rows, cols, content_rect, tile_size),
    ensures
        grid == spacing(rows, cols, content_rect, tile_size),
        content_rect.0 + cols * grid.x_step <= content_rect.2,
        content_rect.1 + rows * grid.y_step <= content_rect.3,
        grid.x_step >= tile_size,
        grid.y_step >= tile_size,
{
    let (x1, y1, x2, y2) = content_rect;
    let content_width = (x2 - x1) as u64;
    let content_height = (y2 - y1) as u64;
    proof {
        lemma_steps_fit(content_width as int, cols as int, tile_size as int);
        lemma_steps_fit(content_height as int, rows as int, tile_size as int);
        assert(cols * tile_size >= 0 && rows * tile_size >= 0) by (nonlinear_arith)
            requires
                cols >= 0,
                rows >= 0,
                tile_size >= 0,
        ;
        let gx = gap(content_width as int, cols as int, tile_size as int);
        let gy = gap(content_height as int, rows as int, tile_size as int);
        assert(tile_size + gx <= content_width) by (nonlinear_arith)
            requires
                cols >= 1,
                tile_size + gx >= 0,
                cols * (tile_size + gx) <= content_width,
        ;
        assert(tile_size + gy <= content_height) by (nonlinear_arith)
            requires
                rows >= 1,
                tile_size + gy >= 0,
                rows * (tile_size + gy) <= content_height,
        ;
    }
    let tiles_width = cols as u64 * tile_size as u64;
    let tiles_height = rows as u64 * tile_size as u64;
    let x_pad = (content_width - tiles_width) / (cols as u64);
    let y_pad = (content_height - tiles_height) / (rows as u64);
    Grid {
        x: x1,
        y: y1,
        cols,
        x_step: (tile_size as u64 + x_pad) as u32,
        y_step: (tile_size as u64 + y_pad) as u32,
    }
}

/// Composes a board from its parts: blends the background onto a transparent
/// canvas of its size, then each tile picture at its place in the grid, row
/// by row.
///
/// A tile is followed by a gap of the free width divided by the number of
/// columns, rounded down; a row by the free height divided by the number of
/// rows. What the division leaves over stays free at the right and bottom.
pub fn compose_board(
    background: &Canvas,
    tile_images: &Vec<Canvas>,
    rows: usize,
    cols: usize,
    content_rect: (u32, u32, u32, u32),
    tile_size: u32,
) -> (image: Canvas)
    requires
        grid_fits(rows, cols, content_rect, tile_size),
        tile_images.len() == rows * cols,
        forall|i: int|
            0 <= i < tile_images.len() ==> is_grid(
                (#[trigger] tile_images[i])@,
                tile_size as int,
                tile_size as int,
            ),
    ensures
        image@ == tiled(
            ground(background@),
            pictures_of(tile_images@),
            spacing(rows, cols, content_rect, tile_size),
            tile_images.len() as nat,
        ),
        same_shape(image@, background@),
        shows_tiles(
            image@,
            pictures_of(tile_images@),
            spacing(rows, cols, content_rect, tile_size),
            tile_images.len() as nat,
        ),
{
    let (width, height) = background.dimensions();
    let mut image = Canvas::new(width, height, transparent());
    // the stored background stays untouched
    image.paste(background, 0, 0);
    let grid = compute_spacing(rows, cols, content_rect, tile_size);
    let ghost pictures = pictures_of(tile_images@);
    let mut x = grid.x;
    let mut y = grid.y;
    let mut row: usize = 0;
    let mut col: usize = 0;
    let mut index: usize = 0;
    while index < tile_images.len()
        invariant
            grid_fits(rows, cols, content_rect, tile_size),
            tile_images.len() == rows * cols,
            forall|i: int|
                0 <= i < tile_images.len() ==> is_grid(
                    (#[trigger] tile_images[i])@,
                    tile_size as int,
                    tile_size as int,
                ),
            grid == spacing(rows, cols, content_rect, tile_size),
            grid.x + cols * grid.x_step <= content_rect.2,
            grid.y + rows * grid.y_step <= content_rect.3,
            grid.x_step >= tile_size,
            grid.y_step >= tile_size,
            pictures == pictures_of(tile_images@),
            index <= tile_images.len(),
            index == row * cols + col,
            0 <= col < cols,
            0 <= row <= rows,
            x == grid.x + col * grid.x_step,
            y == grid.y + row * grid.y_step,
            image@ == tiled(ground(background@), pictures, grid, index as nat),
            same_shape(image@, background@),
            shows_tiles(image@, pictures, grid, index as nat),
        decreases tile_images.len() - index,
    {
        proof {
            lemma_fundamental_div_mod_converse(index as int, cols as int, row as int, col as int);
            assert(grid.origin(index as int) == (x as int, y as int));
            assert(row < rows) by (nonlinear_arith)
                requires
                    row * cols + col < rows * cols,
                    0 <= col,
                    0 <= row <= rows,
                    cols >= 1,
            ;
            assert((col + 1) * grid.x_step <= cols * grid.x_step && (row + 1) * grid.y_step <= rows
                * grid.y_step) by (nonlinear_arith)
                requires
                    0 <= col < cols,
                    0 <= row < rows,
                    grid.x_step >= 0,
                    grid.y_step >= 0,
            ;
            assert((col + 1) * grid.x_step == col * grid.x_step + grid.x_step && (row + 1)
                * grid.y_step == row * grid.y_step + grid.y_step) by (nonlinear_arith);
            assert(width_of(tile_images[index as int]@) == tile_size);
            assert(height_of(tile_images[index as int]@) == tile_size);
        }
        let ghost before = image@;
        image.paste(&tile_images[index], x, y);
        assert(pictures[index as int] == tile_images[index as int]@);
        proof {
            // the tiles placed before lie above or to the left: they stay
            let placed = pictures[index as int];
            assert forall|k: int| 0 <= k < index + 1 implies shows_opaque(
                image@,
                #[trigger] pictures[k],
                grid.origin(k).0,
                grid.origin(k).1,
            ) by {
                if k < index {
                    let (x0, y0) = grid.origin(k);
                    lemma_tiles_do_not_overlap(grid, tile_size as int, k, index as int);
                    assert(pictures[k] == tile_images[k]@);
                    assert(shows_opaque(before, pictures[k], x0, y0));
                    assert forall|i: int, j: int|
                        holds(pictures[k], i, j) && holds(image@, x0 + i, y0 + j) && (
                        #[trigger] pictures[k][j][i]).a == 255 implies image@[y0 + j][x0 + i]
                        == pictures[k][j][i] by {
                        assert(holds(before, x0 + i, y0 + j));
                        assert(!holds(placed, x0 + i - x, y0 + j - y));
                    }
                }
            }
        }
        index += 1;
        col += 1;
        x += grid.x_step;
        if col == cols {
            // next row
            col = 0;
            x = grid.x;
            row += 1;
            y += grid.y_step;
            assert(index == row * cols + col) by (nonlinear_arith)
                requires
                    index == (row - 1) * cols + cols,
                    col == 0,
            ;
        }
        assert(x == grid.x + col * grid.x_step) by (nonlinear_arith)
            requires
                col == 0 ==> x == grid.x,
                col != 0 ==> x == grid.x + (col - 1) * grid.x_step + grid.x_step,
        ;
        assert(y == grid.y + row * grid.y_step) by (nonlinear_arith)
            requires
                col == 0 ==> y == grid.y + (row - 1) * grid.y_step + grid.y_step,
                col != 0 ==> y == grid.y + row * grid.y_step,
        ;
    }
    image
}

impl Board {
    /// The board keeps what a board promises: it has as many tiles as its
    /// grid has cells, its content rectangle is not empty and lies within
    /// the background, and the grid fits into the content rectangle.
    pub open spec fn valid(&self) -> bool {
        let (x1, y1, x2, y2) = self.content_rect;
        &&& self.tiles@.len() == self.rows * self.cols
        &&& x1 < x2
        &&& y1 < y2
        &&& x2 <= width_of(self.image@)
        &&& y2 <= height_of(self.image@)
        &&& grid_fits(self.rows, self.cols, self.content_rect, self.tile_size)
    }

    /// Where the tiles of this board go.
    pub open spec fn grid(&self) -> Grid {
        spacing(self.rows, self.cols, self.content_rect, self.tile_size)
    }

    /// Decides [`Self::valid`].
    pub fn check_valid(&self) -> (ok: bool)
        ensures
            ok == self.valid(),
    {
        let (x1, y1, x2, y2) = self.content_rect;
        let (width, height) = self.image.dimensions();
        if self.rows < 1 || self.cols < 1 || x1 >= x2 || y1 >= y2 || x2 > width || y2 > height {
            return false;
        }
        assert(self.cols * self.tile_size <= 0xffff_ffff_ffff_ffff * 0xffff_ffff && self.rows
            * self.tile_size <= 0xffff_ffff_ffff_ffff * 0xffff_ffff && self.rows * self.cols
            <= 0xffff_ffff_ffff_ffff * 0xffff_ffff_ffff_ffff) by (nonlinear_arith)
            requires
                0 <= self.cols <= 0xffff_ffff_ffff_ffff,
                0 <= self.rows <= 0xffff_ffff_ffff_ffff,
                0 <= self.tile_size <= 0xffff_ffff,
        ;
        let tiles_width = self.cols as u128 * self.tile_size as u128;
        let tiles_height = self.rows as u128 * self.tile_size as u128;
        let count = self.rows as u128 * self.cols as u128;
        count == self.tiles.len() as u128 && tiles_width <= (x2 - x1) as u128 && tiles_height <= (y2
            - y1) as u128
    }
}

/// Renders boards with the tiles of one tile renderer.
pub struct BoardRenderer<'a> {
    tile_renderer: &'a TileRenderer<'a>,
}

impl<'a> BoardRenderer<'a> {
    /// The renderer the tiles are made with.
    pub closed spec fn tile_renderer(&self) -> TileRenderer<'a> {
        *self.tile_renderer
    }

    /// The pictures of the first `n` of `tiles`.
    pub open spec fn tile_pictures(&self, tiles: Seq<Tile>, n: nat) -> Seq<Seq<Seq<Color>>> {
        Seq::new(n, |i: int| self.tile_renderer().rendered(&tiles[i]))
    }

    /// The board can be drawn: it is valid, its tiles have the size this
    /// renderer makes, and each of them can be drawn.
    pub open spec fn can_render(&self, board: &Board) -> bool {
        &&& board.valid()
        &&& board.tile_size == self.tile_renderer().tile_size()
        &&& forall|i: int|
            0 <= i < board.tiles@.len() ==> self.tile_renderer().can_render(
                #[trigger] &board.tiles@[i],
            )
    }

    /// `picture` shows the tiles of `board` as a picture of the board must:
    /// each tile picture is a square of the tile size that shows the icon
    /// of its tile, and `picture` shows every opaque pixel of each tile
    /// picture at its place in the grid.
    pub open spec fn shows_board(&self, board: &Board, picture: Seq<Seq<Color>>) -> bool {
        &&& shows_tiles(
            picture,
            self.tile_pictures(board.tiles@, board.tiles@.len()),
            board.grid(),
            board.tiles@.len(),
        )
        &&& forall|k: int|
            0 <= k < board.tiles@.len() ==> is_grid(
                self.tile_renderer().rendered(#[trigger] &board.tiles@[k]),
                board.tile_size as int,
                board.tile_size as int,
            ) && self.tile_renderer().shows_icon(
                &board.tiles@[k],
                self.tile_renderer().rendered(&board.tiles@[k]),
            )
    }

    /// The picture of `board`.
    pub open spec fn rendered(&self, board: &Board) -> Seq<Seq<Color>> {
        tiled(
            ground(board.image@),
            self.tile_pictures(board.tiles@, board.tiles@.len()),
            board.grid(),
            board.tiles@.len(),
        )
    }

    pub fn new(tile_renderer: &'a TileRenderer<'a>) -> (renderer: Self)
        ensures
            renderer.tile_renderer() == *tile_renderer,
    {
        BoardRenderer { tile_renderer }
    }

    /// Renders a board: the background, and on it every tile at its place in
    /// the grid. The picture has the size of the background.
    pub fn render(&self, board: &Board) -> (image: Canvas)
        requires
            self.can_render(board),
        ensures
            image@ == self.rendered(board),
            same_shape(image@, board.image@),
            width_of(image@) == width_of(board.image@),
            height_of(image@) == height_of(board.image@),
            self.shows_board(board, image@),
    {
        let mut tile_images: Vec<Canvas> = Vec::new();
        let mut index: usize = 0;
        while index < board.tiles.len()
            invariant
                self.can_render(board),
                index <= board.tiles.len(),
                tile_images.len() == index,
                pictures_of(tile_images@) == self.tile_pictures(board.tiles@, index as nat),
                forall|i: int|
                    0 <= i < index ==> is_grid(
                        (#[trigger] tile_images[i])@,
                        board.tile_size as int,
                        board.tile_size as int,
                    ),
                forall|k: int|
                    0 <= k < index ==> is_grid(
                        self.tile_renderer().rendered(#[trigger] &board.tiles@[k]),
                        board.tile_size as int,
                        board.tile_size as int,
                    ) && self.tile_renderer().shows_icon(
                        &board.tiles@[k],
                        self.tile_renderer().rendered(&board.tiles@[k]),
                    ),
            decreases board.tiles.len() - index,
        {
            let ghost before = tile_images@;
            let tile_image = self.tile_renderer.render(&board.tiles[index]);
            tile_images.push(tile_image);
            index += 1;
            assert forall|i: int| 0 <= i < index implies pictures_of(tile_images@)[i]
                == self.tile_pictures(board.tiles@, index as nat)[i] by {
                if i < index - 1 {
                    assert(tile_images@[i] == before[i]);
                    assert(pictures_of(before)[i] == self.tile_pictures(
                        board.tiles@,
                        (index - 1) as nat,
                    )[i]);
                }
            }
            assert(pictures_of(tile_images@) =~= self.tile_pictures(board.tiles@, index as nat));
        }
        compose_board(
            &board.image,
            &tile_images,
            board.rows,
            board.cols,
            board.content_rect,
            board.tile_size,
        )
    }

    /// Decides [`Self::can_render`].
    pub fn check_can_render(&self, board: &Board) -> (ok: bool)
        ensures
            ok == self.can_render(board),
    {
        if !board.check_valid() || board.tile_size != self.tile_renderer.size() {
            return false;
        }
        let mut index: usize = 0;
        while index < board.tiles.len()
            invariant
                index <= board.tiles.len(),
                forall|i: int|
                    0 <= i < index ==> self.tile_renderer().can_render(#[trigger] &board.tiles@[i]),
            decreases board.tiles.len() - index,
        {
            if !self.tile_renderer.check_can_render(&board.tiles[index]) {
                assert(!self.tile_renderer().can_render(&board.tiles@[index as int]));
                return false;
            }
            index += 1;
        }
        true
    }

    /// [`Self::render`], or nothing where the board cannot be drawn.
    pub fn try_render(&self, board: &Board) -> (image: Option<Canvas>)
        ensures
            image is Some <==> self.can_render(board),
            image matches Some(image) ==> image@ == self.rendered(board) && same_shape(
                image@,
                board.image@,
            ) && self.shows_board(board, image@),
    {
        if self.check_can_render(board) {
            Some(self.render(board))
        } else {
            None
        }
    }
}

/// A picture of a board shows the icon of an unlocked tile unscaled and
/// not greyed where the icon has exactly the size of its box: every opaque
/// pixel of the icon is a pixel of the picture, at the place of the tile
/// in the grid and of the box in the tile.
pub proof fn lemma_board_shows_exact_icon(
    renderer: &BoardRenderer,
    board: &Board,
    picture: Seq<Seq<Color>>,
    k: int,
)
    requires
        board.valid(),
        board.tile_size == renderer.tile_renderer().tile_size(),
        renderer.shows_board(board, picture),
        is_grid(picture, width_of(board.image@), height_of(board.image@)),
        0 <= k < board.tiles@.len(),
        board.tiles@[k].unlocked,
        ({
            let icon_box = renderer.tile_renderer().icon_box(&board.tiles@[k]);
            &&& width_of(board.tiles@[k].image@) == icon_box.2 - icon_box.0
            &&& height_of(board.tiles@[k].image@) == icon_box.3 - icon_box.1
        }),
    ensures
        ({
            let icon = board.tiles@[k].image@;
            let icon_box = renderer.tile_renderer().icon_box(&board.tiles@[k]);
            let (x, y) = board.grid().origin(k);
            forall|i: int, j: int|
                0 <= i < width_of(icon) && 0 <= j < height_of(icon) && (#[trigger] icon[j][i]).a
                    == 255 ==> picture[y + icon_box.1 + j][x + icon_box.0 + i] == icon[j][i]
        }),
{
    let tiles = renderer.tile_renderer();
    let tile = &board.tiles@[k];
    let icon = tile.image@;
    let icon_box = tiles.icon_box(tile);
    let shown = tiles.rendered(tile);
    let (x, y) = board.grid().origin(k);
    let pictures = renderer.tile_pictures(board.tiles@, board.tiles@.len());
    assert(pictures[k] == shown);
    assert(shows_opaque(picture, pictures[k], x, y));
    lemma_exact_icon_is_shown(&tiles, tile, shown);
    lemma_tiles_lie_in_the_content_rect(
        board.rows,
        board.cols,
        board.content_rect,
        board.tile_size,
        k,
    );
    assert forall|i: int, j: int|
        0 <= i < width_of(icon) && 0 <= j < height_of(icon) && (#[trigger] icon[j][i]).a
            == 255 implies picture[y + icon_box.1 + j][x + icon_box.0 + i] == icon[j][i] by {
        let (column, row) = (icon_box.0 + i, icon_box.1 + j);
        assert(shown[row][column] == icon[j][i]);
        assert(holds(shown, column, row));
        assert(holds(picture, x + column, y + row));
        assert(shown[row][column].a == 255);
    }
}

} // verus!
