//! Packed 24-bit colors and the tile decomposition of the image.
//!
//! The renderer splits the image into rectangular chunks, clipped against the
//! right and bottom edges, and hands each chunk to a worker.  Correctness of
//! the parallel render rests on the chunks being a partition of the image:
//! [`lemma_grid_partitions`] proves that every pixel lies in exactly one
//! chunk of the grid built by [`chunk_grid`], and
//! [`lemma_pixel_index_injective`] that distinct pixels occupy distinct
//! row-major framebuffer slots, so no pixel is written twice or skipped.

use vstd::arithmetic::div_mod::{
    lemma_div_is_ordered, lemma_div_pos_is_pos, lemma_fundamental_div_mod,
    lemma_fundamental_div_mod_converse, lemma_mod_bound,
};
use vstd::math::min;
use vstd::prelude::*;

verus! {

/// The color `0xRRGGBB` packing channels `r`, `g`, `b`.
pub open spec fn pack_rgb(r: u8, g: u8, b: u8) -> u32 {
    ((r as u32) * 0x1_0000 + (g as u32) * 0x100 + (b as u32)) as u32
}

/// The red channel of the packed color `c`.
pub open spec fn red_of(c: u32) -> u8 {
    ((c >> 16u32) & 0xff) as u8
}

/// The green channel of the packed color `c`.
pub open spec fn green_of(c: u32) -> u8 {
    ((c >> 8u32) & 0xff) as u8
}

/// The blue channel of the packed color `c`.
pub open spec fn blue_of(c: u32) -> u8 {
    (c & 0xff) as u8
}

/// Packs three 8-bit channels into one `0xRRGGBB` word.
pub fn from_rgb(r: u8, g: u8, b: u8) -> (c: u32)
    ensures
        c == pack_rgb(r, g, b),
        c < 0x100_0000,
{
    proof {
        assert(((r as u32) << 16u32) | ((g as u32) << 8u32) | (b as u32)
            == (r as u32) * 0x1_0000 + (g as u32) * 0x100 + (b as u32)
            && (r as u32) * 0x1_0000 + (g as u32) * 0x100 + (b as u32) < 0x100_0000)
            by (bit_vector);
    }
    ((r as u32) << 16) | ((g as u32) << 8) | (b as u32)
}

/// Splits a packed color back into its three channels.
pub fn to_rgb(color: u32) -> (rgb: (u8, u8, u8))
    ensures
        rgb == (red_of(color), green_of(color), blue_of(color)),
{
    let r = color >> 16;
    let rest = color ^ (r << 16);
    let g = rest >> 8;
    let b = rest ^ (g << 8);
    proof {
        assert((color >> 16u32) as u8 == ((color >> 16u32) & 0xff) as u8) by (bit_vector);
        assert(((color ^ ((color >> 16u32) << 16u32)) >> 8u32) as u8
            == ((color >> 8u32) & 0xff) as u8) by (bit_vector);
        assert(((color ^ ((color >> 16u32) << 16u32))
            ^ (((color ^ ((color >> 16u32) << 16u32)) >> 8u32) << 8u32)) as u8
            == (color & 0xff) as u8) by (bit_vector);
    }
    (r as u8, g as u8, b as u8)
}

/// Unpacking a packed color recovers the channels that went in.
pub proof fn lemma_unpack_pack(r: u8, g: u8, b: u8)
    by (bit_vector)
    ensures
        red_of(pack_rgb(r, g, b)) == r,
        green_of(pack_rgb(r, g, b)) == g,
        blue_of(pack_rgb(r, g, b)) == b,
{
}

/// Packing the channels of a 24-bit color recovers the color.
pub proof fn lemma_pack_unpack(c: u32)
    by (bit_vector)
    requires
        c < 0x100_0000,
    ensures
        pack_rgb(red_of(c), green_of(c), blue_of(c)) == c,
{
}

/// A rectangle of pixels: one unit of parallel work.
#[derive(Clone, Copy, PartialEq, Eq, Debug)]
pub struct Chunk {
    pub width: usize,
    pub height: usize,
    pub offset_x: usize,
    pub offset_y: usize,
}

impl Chunk {
    /// Builds the chunk covering `width x height` pixels starting at
    /// `(offset_x, offset_y)`.
    pub fn new(width: usize, height: usize, offset_x: usize, offset_y: usize) -> (c: Chunk)
        ensures
            c.width == width,
            c.height == height,
            c.offset_x == offset_x,
            c.offset_y == offset_y,
    {
        Chunk { width, height, offset_x, offset_y }
    }
}

/// Whether the pixel `(x, y)` lies inside the chunk `c`.
pub open spec fn chunk_contains(c: Chunk, x: int, y: int) -> bool {
    &&& c.offset_x <= x < c.offset_x + c.width
    &&& c.offset_y <= y < c.offset_y + c.height
}

/// Number of chunk columns needed to cover an image `image_width` wide.
pub open spec fn grid_cols(image_width: int, chunk_width: int) -> int {
    (image_width + chunk_width - 1) / chunk_width
}

/// Number of chunk rows needed to cover an image `image_height` tall.
pub open spec fn grid_rows(image_height: int, chunk_height: int) -> int {
    (image_height + chunk_height - 1) / chunk_height
}

/// The chunk standing in grid cell `(cx, cy)`: offset by whole chunk strides
/// and clipped against the right and bottom image edges.
pub open spec fn grid_cell(
    image_width: int,
    image_height: int,
    chunk_width: int,
    chunk_height: int,
    cx: int,
    cy: int,
    c: Chunk,
) -> bool {
    &&& c.offset_x == cx * chunk_width
    &&& c.offset_y == cy * chunk_height
    &&& c.width == min(chunk_width, image_width - cx * chunk_width)
    &&& c.height == min(chunk_height, image_height - cy * chunk_height)
}

/// Whether `chunks` is the row-major tile grid of a `image_width x
/// image_height` image with tiles of `chunk_width x chunk_height` pixels.
pub open spec fn is_grid(
    chunks: Seq<Chunk>,
    image_width: int,
    image_height: int,
    chunk_width: int,
    chunk_height: int,
) -> bool {
    &&& chunks.len() == grid_cols(image_width, chunk_width) * grid_rows(
        image_height,
        chunk_height,
    )
    &&& forall|k: int|
        0 <= k < chunks.len() ==> grid_cell(
            image_width,
            image_height,
            chunk_width,
            chunk_height,
            k % grid_cols(image_width, chunk_width),
            k / grid_cols(image_width, chunk_width),
            #[trigger] chunks[k],
        )
}

/// Rounding up: for positive `n`, one more column than `(n - 1) / d`.
proof fn lemma_ceil_div(n: int, d: int)
    requires
        1 <= d,
        0 <= n,
    ensures
        n == 0 ==> (n + d - 1) / d == 0,
        n >= 1 ==> (n + d - 1) / d == (n - 1) / d + 1,
{
    if n == 0 {
        lemma_fundamental_div_mod_converse(d - 1, d, 0, d - 1);
    } else {
        lemma_fundamental_div_mod(n - 1, d);
        lemma_mod_bound(n - 1, d);
        let q = (n - 1) / d;
        let r = (n - 1) % d;
        assert(n + d - 1 == (q + 1) * d + r) by (nonlinear_arith)
            requires
                n - 1 == d * q + r,
        ;
        lemma_fundamental_div_mod_converse(n + d - 1, d, q + 1, r);
    }
}

/// Splits the image into the row-major grid of clipped chunks.
pub fn chunk_grid(
    image_width: usize,
    image_height: usize,
    chunk_width: usize,
    chunk_height: usize,
) -> (chunks: Vec<Chunk>)
    requires
        1 <= chunk_width,
        1 <= chunk_height,
    ensures
        is_grid(
            chunks@,
            image_width as int,
            image_height as int,
            chunk_width as int,
            chunk_height as int,
        ),
{
    let w = image_width;
    let h = image_height;
    let cols = if w == 0 {
        0
    } else {
        (w - 1) / chunk_width + 1
    };
    let rows = if h == 0 {
        0
    } else {
        (h - 1) / chunk_height + 1
    };
    proof {
        lemma_ceil_div(w as int, chunk_width as int);
        lemma_ceil_div(h as int, chunk_height as int);
        assert(cols == grid_cols(w as int, chunk_width as int));
        assert(rows == grid_rows(h as int, chunk_height as int));
    }
    let mut chunks: Vec<Chunk> = Vec::new();
    let mut cy: usize = 0;
    while cy < rows
        invariant
            cy <= rows,
            1 <= chunk_width,
            1 <= chunk_height,
            cols == grid_cols(w as int, chunk_width as int),
            rows == grid_rows(h as int, chunk_height as int),
            chunks@.len() == cy * cols,
            forall|k: int|
                0 <= k < chunks@.len() ==> grid_cell(
                    w as int,
                    h as int,
                    chunk_width as int,
                    chunk_height as int,
                    k % (cols as int),
                    k / (cols as int),
                    #[trigger] chunks@[k],
                ),
        decreases rows - cy,
    {
        proof {
            lemma_bounded_stride(h as int, chunk_height as int, cy as int);
        }
        let offset_y = cy * chunk_height;
        let cheight = if chunk_height < h - offset_y {
            chunk_height
        } else {
            h - offset_y
        };
        let mut cx: usize = 0;
        while cx < cols
            invariant
                cx <= cols,
                cy < rows,
                1 <= chunk_width,
                1 <= chunk_height,
                cols == grid_cols(w as int, chunk_width as int),
                rows == grid_rows(h as int, chunk_height as int),
                offset_y == cy * chunk_height,
                offset_y <= h - cheight,
                cheight == min(chunk_height as int, h - cy * (chunk_height as int)),
                chunks@.len() == cy * cols + cx,
                forall|k: int|
                    0 <= k < chunks@.len() ==> grid_cell(
                        w as int,
                        h as int,
                        chunk_width as int,
                        chunk_height as int,
                        k % (cols as int),
                        k / (cols as int),
                        #[trigger] chunks@[k],
                    ),
            decreases cols - cx,
        {
            proof {
                lemma_bounded_stride(w as int, chunk_width as int, cx as int);
            }
            let offset_x = cx * chunk_width;
            let cwidth = if chunk_width < w - offset_x {
                chunk_width
            } else {
                w - offset_x
            };
            let ghost k = (cy * cols + cx) as int;
            chunks.push(Chunk { width: cwidth, height: cheight, offset_x, offset_y });
            proof {
                lemma_fundamental_div_mod_converse(k, cols as int, cy as int, cx as int);
                assert(chunks@.len() == cy * cols + (cx + 1));
            }
            cx = cx + 1;
        }
        proof {
            assert(cy * cols + cols == (cy + 1) * (cols as int)) by (nonlinear_arith);
        }
        cy = cy + 1;
    }
    proof {
        assert(rows * cols == cols * rows) by (nonlinear_arith);
    }
    chunks
}

/// A grid cell index below the column count starts strictly inside the image,
/// so the exec subtraction `image extent - offset` cannot underflow.
proof fn lemma_bounded_stride(extent: int, stride: int, c: int)
    requires
        0 <= extent,
        1 <= stride,
        0 <= c,
        c < grid_cols(extent, stride),
    ensures
        c * stride <= extent - 1,
{
    lemma_ceil_div(extent, stride);
    if extent == 0 {
    } else {
        // c <= (extent - 1) / stride, so c * stride <= extent - 1.
        lemma_fundamental_div_mod(extent - 1, stride);
        lemma_mod_bound(extent - 1, stride);
        assert(c * stride <= extent - 1) by (nonlinear_arith)
            requires
                1 <= stride,
                0 <= c,
                c <= (extent - 1) / stride,
                extent - 1 == stride * ((extent - 1) / stride) + (extent - 1) % stride,
                (extent - 1) % stride >= 0,
        ;
    }
}

/// Index of the pixel `(x, y)` in a row-major buffer of rows `image_width`
/// wide.
pub open spec fn pixel_index(image_width: int, x: int, y: int) -> int {
    y * image_width + x
}

/// Distinct pixels of the image occupy distinct row-major buffer slots.
pub proof fn lemma_pixel_index_injective(
    image_width: int,
    x1: int,
    y1: int,
    x2: int,
    y2: int,
)
    by (nonlinear_arith)
    requires
        0 <= x1 < image_width,
        0 <= x2 < image_width,
        0 <= y1,
        0 <= y2,
        pixel_index(image_width, x1, y1) == pixel_index(image_width, x2, y2),
    ensures
        x1 == x2,
        y1 == y2,
{
}

/// Every chunk of the grid lies inside the image, so a worker that walks
/// its chunk's rectangle only ever addresses pixels the framebuffer holds.
pub proof fn lemma_grid_chunk_in_image(
    chunks: Seq<Chunk>,
    image_width: int,
    image_height: int,
    chunk_width: int,
    chunk_height: int,
    k: int,
)
    requires
        1 <= chunk_width,
        1 <= chunk_height,
        is_grid(chunks, image_width, image_height, chunk_width, chunk_height),
        0 <= k < chunks.len(),
    ensures
        chunks[k].offset_x + chunks[k].width <= image_width,
        chunks[k].offset_y + chunks[k].height <= image_height,
{
    let cols = grid_cols(image_width, chunk_width);
    let cx = k % cols;
    let cy = k / cols;
    assert(grid_cell(image_width, image_height, chunk_width, chunk_height, cx, cy, chunks[k]));
    // Clipping makes the right edge min(offset + stride, image edge).
    assert(chunks[k].width <= image_width - cx * chunk_width);
    assert(chunks[k].height <= image_height - cy * chunk_height);
}

/// Pixels of two distinct chunks of the grid never share a framebuffer
/// slot: together with [`lemma_grid_partitions`] this is why a render that
/// hands each chunk to one worker writes every row-major index exactly once,
/// with no torn or missing pixels.
pub proof fn lemma_distinct_chunks_distinct_slots(
    chunks: Seq<Chunk>,
    image_width: int,
    image_height: int,
    chunk_width: int,
    chunk_height: int,
    k1: int,
    k2: int,
    x1: int,
    y1: int,
    x2: int,
    y2: int,
)
    requires
        1 <= chunk_width,
        1 <= chunk_height,
        is_grid(chunks, image_width, image_height, chunk_width, chunk_height),
        0 <= k1 < chunks.len(),
        0 <= k2 < chunks.len(),
        k1 != k2,
        chunk_contains(chunks[k1], x1, y1),
        chunk_contains(chunks[k2], x2, y2),
    ensures
        pixel_index(image_width, x1, y1) != pixel_index(image_width, x2, y2),
{
    lemma_grid_chunk_in_image(chunks, image_width, image_height, chunk_width, chunk_height, k1);
    lemma_grid_chunk_in_image(chunks, image_width, image_height, chunk_width, chunk_height, k2);
    if pixel_index(image_width, x1, y1) == pixel_index(image_width, x2, y2) {
        lemma_pixel_index_injective(image_width, x1, y1, x2, y2);
        // The same pixel would then lie in two different chunks.
        lemma_grid_locate(
            chunks,
            image_width,
            image_height,
            chunk_width,
            chunk_height,
            x1,
            y1,
            k1,
        );
        lemma_grid_locate(
            chunks,
            image_width,
            image_height,
            chunk_width,
            chunk_height,
            x1,
            y1,
            k2,
        );
    }
}

/// A chunk of the grid that contains the pixel `(x, y)` can only be the one
/// standing in grid cell `(x / chunk_width, y / chunk_height)`.
proof fn lemma_grid_locate(
    chunks: Seq<Chunk>,
    image_width: int,
    image_height: int,
    chunk_width: int,
    chunk_height: int,
    x: int,
    y: int,
    k: int,
)
    requires
        0 <= image_width,
        0 <= image_height,
        1 <= chunk_width,
        1 <= chunk_height,
        is_grid(chunks, image_width, image_height, chunk_width, chunk_height),
        0 <= x,
        0 <= y,
        0 <= k < chunks.len(),
        chunk_contains(chunks[k], x, y),
    ensures
        k == (y / chunk_height) * grid_cols(image_width, chunk_width) + x / chunk_width,
{
    let cols = grid_cols(image_width, chunk_width);
    let rows = grid_rows(image_height, chunk_height);
    lemma_div_pos_is_pos(image_width + chunk_width - 1, chunk_width);
    lemma_div_pos_is_pos(image_height + chunk_height - 1, chunk_height);
    assert(cols >= 1) by (nonlinear_arith)
        requires
            0 <= k < cols * rows,
            rows >= 0,
    ;
    let cx = k % cols;
    let cy = k / cols;
    lemma_mod_bound(k, cols);
    lemma_div_pos_is_pos(k, cols);
    assert(grid_cell(image_width, image_height, chunk_width, chunk_height, cx, cy, chunks[k]));
    // The chunk spans at most one full stride, so `x` pins down its column.
    assert(cx * chunk_width <= x < cx * chunk_width + chunk_width);
    lemma_fundamental_div_mod_converse(x, chunk_width, cx, x - cx * chunk_width);
    assert(cy * chunk_height <= y < cy * chunk_height + chunk_height);
    lemma_fundamental_div_mod_converse(y, chunk_height, cy, y - cy * chunk_height);
    lemma_fundamental_div_mod(k, cols);
    assert(cols * cy == cy * cols) by (nonlinear_arith);
}

/// Each pixel of the image lies in exactly one chunk of the grid: the tiles
/// cover the whole image and never overlap, so a render that walks every
/// chunk writes every pixel exactly once.
pub proof fn lemma_grid_partitions(
    chunks: Seq<Chunk>,
    image_width: int,
    image_height: int,
    chunk_width: int,
    chunk_height: int,
    x: int,
    y: int,
)
    requires
        1 <= chunk_width,
        1 <= chunk_height,
        is_grid(chunks, image_width, image_height, chunk_width, chunk_height),
        0 <= x < image_width,
        0 <= y < image_height,
    ensures
        exists|k: int| 0 <= k < chunks.len() && #[trigger] chunk_contains(chunks[k], x, y),
        forall|k1: int, k2: int|
            0 <= k1 < chunks.len() && 0 <= k2 < chunks.len() && #[trigger] chunk_contains(
                chunks[k1],
                x,
                y,
            ) && #[trigger] chunk_contains(chunks[k2], x, y) ==> k1 == k2,
{
    let cols = grid_cols(image_width, chunk_width);
    let rows = grid_rows(image_height, chunk_height);
    let cx = x / chunk_width;
    let cy = y / chunk_height;
    lemma_div_pos_is_pos(x, chunk_width);
    lemma_div_pos_is_pos(y, chunk_height);
    lemma_fundamental_div_mod(x, chunk_width);
    lemma_mod_bound(x, chunk_width);
    lemma_fundamental_div_mod(y, chunk_height);
    lemma_mod_bound(y, chunk_height);
    // The cell holding (x, y) lies inside the grid.
    lemma_ceil_div(image_width, chunk_width);
    lemma_div_is_ordered(x, image_width - 1, chunk_width);
    lemma_ceil_div(image_height, chunk_height);
    lemma_div_is_ordered(y, image_height - 1, chunk_height);
    assert(cx < cols && cy < rows);
    let k = cy * cols + cx;
    assert(0 <= cy * cols + cx && cy * cols + cx < cols * rows) by (nonlinear_arith)
        requires
            0 <= cx < cols,
            0 <= cy < rows,
    ;
    lemma_fundamental_div_mod_converse(k, cols, cy, cx);
    assert(grid_cell(image_width, image_height, chunk_width, chunk_height, cx, cy, chunks[k]));
    assert(cx * chunk_width <= x < cx * chunk_width + chunk_width) by (nonlinear_arith)
        requires
            x == chunk_width * cx + x % chunk_width,
            0 <= x % chunk_width < chunk_width,
    ;
    assert(cy * chunk_height <= y < cy * chunk_height + chunk_height) by (nonlinear_arith)
        requires
            y == chunk_height * cy + y % chunk_height,
            0 <= y % chunk_height < chunk_height,
    ;
    // x stays left of the clipped right edge: x < image_width itself.
    assert(chunk_contains(chunks[k], x, y));
    assert forall|k1: int, k2: int|
        0 <= k1 < chunks.len() && 0 <= k2 < chunks.len() && #[trigger] chunk_contains(
            chunks[k1],
            x,
            y,
        ) && #[trigger] chunk_contains(chunks[k2], x, y) implies k1 == k2 by {
        lemma_grid_locate(
            chunks,
            image_width,
            image_height,
            chunk_width,
            chunk_height,
            x,
            y,
            k1,
        );
        lemma_grid_locate(
            chunks,
            image_width,
            image_height,
            chunk_width,
            chunk_height,
            x,
            y,
            k2,
        );
    }
}

} // verus!
