//! The partition of an image into tiles of whole rows, one for each worker.
//!
//! Every tile but the last has the same number of rows; the last one also
//! takes the rows that are left over when the height is no multiple of the
//! number of tiles.
use crate::color3::Color3;
use crate::vec3::Vec3;
use vstd::prelude::*;

verus! {

/// The first row of tile `i` of `tiles`.
pub open spec fn tile_start(image_height: int, tiles: int, i: int) -> int {
    i * (image_height / tiles)
}

/// The row after the last row of tile `i` of `tiles`.
pub open spec fn tile_end(image_height: int, tiles: int, i: int) -> int {
    if i == tiles - 1 {
        image_height
    } else {
        (i + 1) * (image_height / tiles)
    }
}

/// The tiles are laid end to end from the first row to the last: the first
/// starts at row 0, each ends where the next starts, and the last ends with
/// the image. So every row lies in exactly one tile.
pub proof fn lemma_tiles_partition(image_height: int, tiles: int)
    requires
        image_height >= 0,
        tiles > 0,
    ensures
        tile_start(image_height, tiles, 0) == 0,
        tile_end(image_height, tiles, tiles - 1) == image_height,
        forall|i: int|
            0 <= i < tiles - 1 ==> #[trigger] tile_end(image_height, tiles, i) == tile_start(
                image_height,
                tiles,
                i + 1,
            ),
        forall|i: int|
            0 <= i < tiles ==> 0 <= #[trigger] tile_start(image_height, tiles, i) <= tile_end(
                image_height,
                tiles,
                i,
            ) <= image_height,
{
    let rows = image_height / tiles;
    assert(0 * rows == 0);
    assert forall|i: int| 0 <= i < tiles implies 0 <= #[trigger] tile_start(
        image_height,
        tiles,
        i,
    ) <= tile_end(image_height, tiles, i) <= image_height by {
        lemma_tile_bounds(image_height, tiles, i);
    }
}

/// A tile lies within the image.
pub proof fn lemma_tile_bounds(image_height: int, tiles: int, i: int)
    requires
        image_height >= 0,
        tiles > 0,
        0 <= i < tiles,
    ensures
        0 <= tile_start(image_height, tiles, i) <= tile_end(image_height, tiles, i)
            <= image_height,
{
    let rows = image_height / tiles;
    assert(0 <= rows && tiles * rows <= image_height) by (nonlinear_arith)
        requires
            rows == image_height / tiles,
            image_height >= 0,
            tiles > 0,
    ;
    assert(0 <= i * rows <= (i + 1) * rows <= tiles * rows) by (nonlinear_arith)
        requires
            0 <= rows,
            0 <= i < tiles,
    ;
}

/// The rows of tile `i` when the image is shared among `num_threads`
/// workers: the first row and the row after the last.
pub fn tile_rows(image_height: usize, num_threads: usize, i: usize) -> (r: (usize, usize))
    requires
        num_threads > 0,
        i < num_threads,
    ensures
        r.0 == tile_start(image_height as int, num_threads as int, i as int),
        r.1 == tile_end(image_height as int, num_threads as int, i as int),
        r.0 <= r.1 <= image_height,
{
    proof {
        lemma_tile_bounds(image_height as int, num_threads as int, i as int);
        if i < num_threads - 1 {
            lemma_tile_bounds(image_height as int, num_threads as int, i + 1);
        }
    }
    let rows_per_thread = image_height / num_threads;
    let start_row = i * rows_per_thread;
    let end_row = if i == num_threads - 1 {
        image_height
    } else {
        (i + 1) * rows_per_thread
    };
    (start_row, end_row)
}

/// The buffers of the tiles, laid end to end.
pub open spec fn joined(buffers: Seq<Vec<Vec3>>) -> Seq<Vec3>
    decreases buffers.len(),
{
    if buffers.len() == 0 {
        Seq::<Vec3>::empty()
    } else {
        joined(buffers.drop_last()) + buffers.last()@
    }
}

/// The row at which the first `k` tiles end.
pub open spec fn rows_before(image_height: int, tiles: int, k: int) -> int {
    if k == 0 {
        0
    } else {
        tile_end(image_height, tiles, k - 1)
    }
}

/// Whether each buffer holds the rows of its tile, `width` entries for a
/// row.
pub open spec fn tiled(buffers: Seq<Vec<Vec3>>, image_height: int, width: int) -> bool {
    forall|i: int|
        0 <= i < buffers.len() ==> (#[trigger] buffers[i]).len() == (tile_end(
            image_height,
            buffers.len() as int,
            i,
        ) - tile_start(image_height, buffers.len() as int, i)) * width
}

/// Entry `j` of buffer `k` stands in the joined buffers after all the
/// entries of the buffers before it.
pub proof fn lemma_joined_entry(buffers: Seq<Vec<Vec3>>, k: int, j: int)
    requires
        0 <= k < buffers.len(),
        0 <= j < buffers[k].len(),
    ensures
        joined(buffers.take(k)).len() + j < joined(buffers).len(),
        joined(buffers)[joined(buffers.take(k)).len() + j] == buffers[k][j],
    decreases buffers.len(),
{
    let earlier = buffers.drop_last();
    if k == buffers.len() - 1 {
        assert(buffers.take(k) =~= earlier);
    } else {
        lemma_joined_entry(earlier, k, j);
        assert(earlier.take(k) =~= buffers.take(k));
    }
}

/// The first `k` buffers of the tiles of an image hold the rows before
/// tile `k`.
pub proof fn lemma_joined_rows(buffers: Seq<Vec<Vec3>>, image_height: int, width: int, k: int)
    requires
        image_height >= 0,
        width >= 0,
        tiled(buffers, image_height, width),
        0 <= k <= buffers.len(),
    ensures
        joined(buffers.take(k)).len() == rows_before(image_height, buffers.len() as int, k) * width,
    decreases k,
{
    let tiles = buffers.len() as int;
    if k == 0 {
        assert(0 * width == 0);
    } else {
        lemma_joined_rows(buffers, image_height, width, k - 1);
        lemma_tiles_partition(image_height, tiles);
        assert(buffers.take(k).drop_last() =~= buffers.take(k - 1));
        assert(buffers.take(k).last() == buffers[k - 1]);
        let start = tile_start(image_height, tiles, k - 1);
        let end = tile_end(image_height, tiles, k - 1);
        assert(rows_before(image_height, tiles, k - 1) == start) by {
            if k - 1 > 0 {
                assert(tile_end(image_height, tiles, k - 2) == tile_start(
                    image_height,
                    tiles,
                    k - 2 + 1,
                ));
            }
        }
        assert(start * width + (end - start) * width == end * width) by (nonlinear_arith);
    }
}

/// The joined buffers of the tiles are the image, top row first: the pixel
/// in column `x` of row `row` of tile `i` stands at
/// `(tile_start + row) * width + x`.
pub proof fn lemma_joined_is_the_image(
    buffers: Seq<Vec<Vec3>>,
    image_height: int,
    width: int,
    i: int,
    row: int,
    x: int,
)
    requires
        image_height >= 0,
        tiled(buffers, image_height, width),
        0 <= i < buffers.len(),
        0 <= row < tile_end(image_height, buffers.len() as int, i) - tile_start(
            image_height,
            buffers.len() as int,
            i,
        ),
        0 <= x < width,
    ensures
        joined(buffers).len() == image_height * width,
        row * width + x < buffers[i].len(),
        joined(buffers)[(tile_start(image_height, buffers.len() as int, i) + row) * width + x]
            == buffers[i][row * width + x],
{
    let tiles = buffers.len() as int;
    let start = tile_start(image_height, tiles, i);
    let rows = tile_end(image_height, tiles, i) - start;
    lemma_tiles_partition(image_height, tiles);
    lemma_joined_rows(buffers, image_height, width, tiles);
    assert(buffers.take(tiles) =~= buffers);
    lemma_joined_rows(buffers, image_height, width, i);
    assert(rows_before(image_height, tiles, i) == start) by {
        if i > 0 {
            assert(tile_end(image_height, tiles, i - 1) == tile_start(
                image_height,
                tiles,
                i - 1 + 1,
            ));
        }
    }
    assert(0 <= row * width + x < rows * width && (start + row) * width + x == start * width + (row
        * width + x)) by (nonlinear_arith)
        requires
            0 <= row < rows,
            0 <= x < width,
    ;
    lemma_joined_entry(buffers, i, row * width + x);
}

/// Lays the buffers of the tiles end to end.
pub fn assemble(buffers: &Vec<Vec<Color3>>) -> (r: Vec<Color3>)
    ensures
        r@ == joined(buffers@),
{
    let mut image: Vec<Color3> = Vec::new();
    let mut i: usize = 0;
    proof {
        assert(buffers@.take(0) =~= Seq::<Vec<Vec3>>::empty());
    }
    while i < buffers.len()
        invariant
            i <= buffers.len(),
            image@ == joined(buffers@.take(i as int)),
        decreases buffers.len() - i,
    {
        let buffer = &buffers[i];
        let ghost before = image@;
        let mut j: usize = 0;
        while j < buffer.len()
            invariant
                j <= buffer.len(),
                image@ == before + buffer@.take(j as int),
            decreases buffer.len() - j,
        {
            image.push(buffer[j]);
            j += 1;
            assert(image@ =~= before + buffer@.take(j as int));
        }
        proof {
            assert(buffer@.take(j as int) =~= buffer@);
            assert(buffers@.take(i + 1).drop_last() =~= buffers@.take(i as int));
            assert(buffers@.take(i + 1).last() == buffers@[i as int]);
        }
        i += 1;
    }
    proof {
        assert(buffers@.take(i as int) =~= buffers@);
    }
    image
}

} // verus!
