//! The tiled renderer: how the rows of the image are shared out among jobs,
//! how a job fills its rows, and how what the jobs hand back is put
//! together.
use vstd::prelude::*;
use image::ImageBuffer;
use image::Rgb;
use image::RgbImage;
use crate::color::spec_pixel_of;
use crate::color::write_color;
use crate::vec3::Color;

verus! {

/// One pixel: its red, green and blue channel.
pub type Rgb8 = (u8, u8, u8);

/// A dense raster of pixels, kept in an `image::RgbImage`. What it holds
/// is known only through [`raster_size`] and [`raster_pixels`].
#[verifier::external_body]
pub struct Raster {
    img: RgbImage,
}

/// The width and the height of a raster, in pixels: what
/// `ImageBuffer::dimensions` returns for it.
pub uninterp spec fn raster_size(img: Raster) -> (nat, nat);

/// The pixels of a raster, by column and row: what `ImageBuffer::get_pixel`
/// returns for each place inside it.
pub uninterp spec fn raster_pixels(img: Raster) -> Map<(int, int), Rgb8>;

/// The pixels of a raster of the given size in which every channel is zero.
pub open spec fn black(width: nat, height: nat) -> Map<(int, int), Rgb8> {
    Map::new(
        |at: (int, int)| 0 <= at.0 < width && 0 <= at.1 < height,
        |at: (int, int)| (0u8, 0u8, 0u8),
    )
}

/// Whether a raster of this size can be made: its three bytes per pixel
/// must not outgrow the largest buffer that the machine hands out.
pub open spec fn fits(width: u32, height: u32) -> bool {
    3 * width * height <= isize::MAX
}

impl Raster {
    /// The number of columns.
    pub open spec fn width(self) -> nat {
        raster_size(self).0
    }

    /// The number of rows.
    pub open spec fn height(self) -> nat {
        raster_size(self).1
    }

    /// The pixel in column `x` of row `y`.
    pub open spec fn pixel(self, x: int, y: int) -> Rgb8 {
        raster_pixels(self)[(x, y)]
    }

    /// `ImageBuffer::new`: a raster of the given size with every channel
    /// zero. It panics where the buffer cannot be had, so the size is
    /// bounded.
    #[verifier::external_body]
    fn blank(width: u32, height: u32) -> (img: Raster)
        requires
            fits(width, height),
        ensures
            raster_size(img) == (width as nat, height as nat),
            raster_pixels(img) == black(width as nat, height as nat),
    {
        Raster { img: ImageBuffer::new(width, height) }
    }

    /// `ImageBuffer::dimensions`: the width and the height that the raster
    /// was made with.
    #[verifier::external_body]
    fn size(&self) -> (d: (u32, u32))
        ensures
            (d.0 as nat, d.1 as nat) == raster_size(*self),
    {
        self.img.dimensions()
    }

    /// `ImageBuffer::get_pixel`: the pixel in column `x` of row `y`. It
    /// panics outside the raster.
    #[verifier::external_body]
    fn get(&self, x: u32, y: u32) -> (p: Rgb8)
        requires
            x < self.width(),
            y < self.height(),
        ensures
            p == self.pixel(x as int, y as int),
    {
        let Rgb([r, g, b]) = *self.img.get_pixel(x, y);
        (r, g, b)
    }

    /// `ImageBuffer::put_pixel`: sets the pixel in column `x` of row `y`
    /// and leaves the others and the size as they are. It panics outside
    /// the raster.
    #[verifier::external_body]
    fn put(&mut self, x: u32, y: u32, p: Rgb8)
        requires
            x < old(self).width(),
            y < old(self).height(),
        ensures
            raster_size(*final(self)) == raster_size(*old(self)),
            raster_pixels(*final(self)) == raster_pixels(*old(self)).insert(
                (x as int, y as int),
                p,
            ),
    {
        self.img.put_pixel(x, y, Rgb([p.0, p.1, p.2]));
    }

    /// `ImageBuffer::into_raw`: the buffer behind the raster, three bytes
    /// to the pixel, the pixels of a row from left to right and the rows
    /// from the top down.
    #[verifier::external_body]
    fn raw(self) -> (bytes: Vec<u8>)
        ensures
            bytes@ == Raster::bytes_of(self),
    {
        self.img.into_raw()
    }

    /// The channels of every pixel in one sequence: red, green and blue of
    /// a pixel side by side, the pixels of a row from left to right, the
    /// rows from the top down.
    pub open spec fn bytes_of(self) -> Seq<u8> {
        Seq::new(
            3 * self.width() * self.height(),
            |k: int|
                {
                    let p = self.pixel((k / 3) % (self.width() as int), (k / 3) / (self.width() as int));
                    if k % 3 == 0 {
                        p.0
                    } else if k % 3 == 1 {
                        p.1
                    } else {
                        p.2
                    }
                },
        )
    }

    /// Gives up the raster for its bytes, laid out as [`Raster::bytes_of`]
    /// says.
    pub fn into_raw(self) -> (bytes: Vec<u8>)
        ensures
            bytes@ == self.bytes_of(),
    {
        self.raw()
    }

    /// A raster of the given size with every channel zero, or `None` where
    /// no raster of that size can be made.
    pub fn new(width: u32, height: u32) -> (made: Option<Raster>)
        ensures
            made is Some <==> fits(width, height),
            made matches Some(img) ==> img.width() == width && img.height() == height
                && raster_pixels(img) == black(width as nat, height as nat),
    {
        let w: u128 = width as u128;
        let h: u128 = height as u128;
        assert(3 * w * h <= 3 * 0x1_0000_0000 * 0x1_0000_0000) by (nonlinear_arith)
            requires
                w < 0x1_0000_0000,
                h < 0x1_0000_0000,
        ;
        if 3 * w * h <= isize::MAX as u128 {
            Some(Raster::blank(width, height))
        } else {
            None
        }
    }

    /// The width and the height of the raster.
    pub fn dimensions(&self) -> (d: (u32, u32))
        ensures
            d.0 == self.width(),
            d.1 == self.height(),
    {
        self.size()
    }

    /// The pixel in column `x` of row `y`, or `None` outside the raster.
    pub fn get_pixel(&self, x: u32, y: u32) -> (p: Option<Rgb8>)
        ensures
            p == if x < self.width() && y < self.height() {
                Some(self.pixel(x as int, y as int))
            } else {
                None
            },
    {
        let (w, h) = self.size();
        if x < w && y < h {
            Some(self.get(x, y))
        } else {
            None
        }
    }

    /// Sets the pixel in column `x` of row `y`. Outside the raster nothing
    /// is written, and `false` comes back.
    pub fn put_pixel(&mut self, x: u32, y: u32, p: Rgb8) -> (written: bool)
        ensures
            written == (x < old(self).width() && y < old(self).height()),
            raster_size(*final(self)) == raster_size(*old(self)),
            raster_pixels(*final(self)) == if written {
                raster_pixels(*old(self)).insert((x as int, y as int), p)
            } else {
                raster_pixels(*old(self))
            },
    {
        let (w, h) = self.size();
        if x < w && y < h {
            self.put(x, y, p);
            true
        } else {
            false
        }
    }
}

/// What one job hands back: the rows that it was given, from `row_begin`,
/// included, to `row_end`, excluded, and the raster that it filled for
/// them.
pub struct Tile {
    pub row_begin: u32,
    pub row_end: u32,
    pub data: Raster,
}

impl Tile {
    /// Whether row `y` of the image is one of the rows of this tile.
    pub open spec fn covers(self, y: int) -> bool {
        self.row_begin <= y < self.row_end
    }

    /// Whether the tile can be copied into an image of the given size: its
    /// rows lie inside the image, and its raster is as wide as the image
    /// and as high as the rows are many.
    pub open spec fn fits_into(self, width: nat, height: nat) -> bool {
        &&& self.row_begin <= self.row_end <= height
        &&& self.data.width() == width
        &&& self.data.height() == self.row_end - self.row_begin
    }
}

/// What an image shows at column `x` of row `y` once `tiles` have been
/// copied into it one after the other: the pixel of the last tile that
/// covers the row, or black where none does.
pub open spec fn assembled_pixel(tiles: Seq<Tile>, x: int, y: int) -> Rgb8
    decreases tiles.len(),
{
    if tiles.len() == 0 {
        (0u8, 0u8, 0u8)
    } else if tiles.last().covers(y) {
        tiles.last().data.pixel(x, y - tiles.last().row_begin)
    } else {
        assembled_pixel(tiles.drop_last(), x, y)
    }
}

/// Every tile can be copied into an image of the given size.
pub open spec fn all_fit(tiles: Seq<Tile>, width: nat, height: nat) -> bool {
    forall|i: int| 0 <= i < tiles.len() ==> (#[trigger] tiles[i]).fits_into(width, height)
}

/// No row is covered by two of the tiles.
pub open spec fn rows_disjoint(tiles: Seq<Tile>) -> bool {
    forall|i: int, j: int, y: int|
        0 <= i < tiles.len() && 0 <= j < tiles.len() && i != j && #[trigger] tiles[i].covers(y)
            ==> !#[trigger] tiles[j].covers(y)
}

/// `p` is the pixel of a colour that `shade` may answer for column `x` of
/// row `y`.
pub open spec fn is_shaded<F: Fn(u32, u32) -> Color>(shade: F, x: u32, y: u32, p: Rgb8) -> bool {
    exists|c: Color| call_ensures(shade, (x, y), c) && p == spec_pixel_of(c)
}

/// Renders the rows `row_begin..row_end` of an image that is `image_width`
/// wide into a raster of their own. `shade(x, y)` gives the colour for
/// column `x` of row `y` of the image, averaged over its samples and
/// gamma-corrected; its pixel lands in row `y - row_begin` of the raster.
/// `None` where the rows are out of order or no raster of that size can be
/// made.
pub fn render_rows<F: Fn(u32, u32) -> Color>(
    image_width: u32,
    row_begin: u32,
    row_end: u32,
    shade: &F,
) -> (tile: Option<Tile>)
    requires
        forall|x: u32, y: u32|
            x < image_width && row_begin <= y < row_end ==> call_requires(*shade, (x, y)),
    ensures
        tile is Some <==> row_begin <= row_end && fits(image_width, (row_end - row_begin) as u32),
        tile matches Some(t) ==> {
            &&& t.row_begin == row_begin
            &&& t.row_end == row_end
            &&& t.data.width() == image_width
            &&& t.data.height() == row_end - row_begin
            &&& forall|x: u32, y: u32|
                x < image_width && row_begin <= y < row_end ==> is_shaded(
                    *shade,
                    x,
                    y,
                    #[trigger] t.data.pixel(x as int, y - row_begin),
                )
        },
{
    if row_begin > row_end {
        return None;
    }
    let render_height = row_end - row_begin;
    let mut img = match Raster::new(image_width, render_height) {
        Some(img) => img,
        None => {
            return None;
        },
    };
    let mut x: u32 = 0;
    while x < image_width
        invariant
            x <= image_width,
            row_begin <= row_end,
            render_height == row_end - row_begin,
            img.width() == image_width,
            img.height() == render_height,
            forall|x: u32, y: u32|
                x < image_width && row_begin <= y < row_end ==> call_requires(*shade, (x, y)),
            forall|cx: u32, cy: u32|
                cx < x && row_begin <= cy < row_end ==> is_shaded(
                    *shade,
                    cx,
                    cy,
                    #[trigger] img.pixel(cx as int, cy - row_begin),
                ),
        decreases image_width - x,
    {
        let mut img_y: u32 = 0;
        while img_y < render_height
            invariant
                x < image_width,
                img_y <= render_height,
                row_begin <= row_end,
                render_height == row_end - row_begin,
                img.width() == image_width,
                img.height() == render_height,
                forall|x: u32, y: u32|
                    x < image_width && row_begin <= y < row_end ==> call_requires(*shade, (x, y)),
                forall|cx: u32, cy: u32|
                    (cx < x && row_begin <= cy < row_end) || (cx == x && row_begin <= cy
                        < row_begin + img_y) ==> is_shaded(
                        *shade,
                        cx,
                        cy,
                        #[trigger] img.pixel(cx as int, cy - row_begin),
                    ),
            decreases render_height - img_y,
        {
            let y = row_begin + img_y;
            let pixel_color = shade(x, y);
            let ghost before = img;
            write_color(&mut img, x, img_y, &pixel_color);
            assert forall|cx: u32, cy: u32|
                (cx < x && row_begin <= cy < row_end) || (cx == x && row_begin <= cy < row_begin
                    + img_y + 1) implies is_shaded(
                *shade,
                cx,
                cy,
                #[trigger] img.pixel(cx as int, cy - row_begin),
            ) by {
                if cx == x && cy == y {
                    assert(call_ensures(*shade, (x, y), pixel_color));
                } else {
                    assert(img.pixel(cx as int, cy - row_begin) == before.pixel(
                        cx as int,
                        cy - row_begin,
                    ));
                }
            }
            img_y = img_y + 1;
        }
        x = x + 1;
    }
    Some(Tile { row_begin, row_end, data: img })
}

/// Copies the raster of `tile` into the rows of `result` that the tile
/// names. A tile that does not fit the image is not copied, and `false`
/// comes back.
pub fn copy_rows(result: &mut Raster, tile: &Tile) -> (copied: bool)
    ensures
        copied == tile.fits_into(old(result).width(), old(result).height()),
        raster_size(*final(result)) == raster_size(*old(result)),
        !copied ==> raster_pixels(*final(result)) == raster_pixels(*old(result)),
        copied ==> forall|x: int, y: int|
            0 <= x < old(result).width() && 0 <= y < old(result).height()
                ==> #[trigger] final(result).pixel(x, y) == if tile.covers(y) {
                tile.data.pixel(x, y - tile.row_begin)
            } else {
                old(result).pixel(x, y)
            },
{
    let (width, height) = result.dimensions();
    let (tile_width, tile_height) = tile.data.dimensions();
    if tile.row_begin > tile.row_end || tile.row_end > height || tile_width != width
        || tile_height != tile.row_end - tile.row_begin {
        return false;
    }
    let mut idx: u32 = 0;
    while idx < tile_height
        invariant
            idx <= tile_height,
            tile.fits_into(width as nat, height as nat),
            tile_height == tile.row_end - tile.row_begin,
            raster_size(*result) == raster_size(*old(result)),
            result.width() == width,
            result.height() == height,
            forall|x: int, y: int|
                0 <= x < width && 0 <= y < height ==> #[trigger] result.pixel(x, y) == if tile.row_begin
                    <= y < tile.row_begin + idx {
                    tile.data.pixel(x, y - tile.row_begin)
                } else {
                    old(result).pixel(x, y)
                },
        decreases tile_height - idx,
    {
        let row = tile.row_begin + idx;
        let mut col: u32 = 0;
        while col < width
            invariant
                col <= width,
                idx < tile_height,
                row == tile.row_begin + idx,
                tile.fits_into(width as nat, height as nat),
                tile_height == tile.row_end - tile.row_begin,
                raster_size(*result) == raster_size(*old(result)),
                result.width() == width,
                result.height() == height,
                forall|x: int, y: int|
                    0 <= x < width && 0 <= y < height ==> #[trigger] result.pixel(x, y) == if (
                    tile.row_begin <= y < row) || (y == row && x < col) {
                        tile.data.pixel(x, y - tile.row_begin)
                    } else {
                        old(result).pixel(x, y)
                    },
            decreases width - col,
        {
            let p = tile.data.get(col, idx);
            let ghost before = *result;
            result.put(col, row, p);
            assert forall|x: int, y: int|
                0 <= x < width && 0 <= y < height implies #[trigger] result.pixel(x, y) == if (
            tile.row_begin <= y < row) || (y == row && x < col + 1) {
                tile.data.pixel(x, y - tile.row_begin)
            } else {
                old(result).pixel(x, y)
            } by {
                if x == col && y == row {
                } else {
                    assert(result.pixel(x, y) == before.pixel(x, y));
                }
            }
            col = col + 1;
        }
        idx = idx + 1;
    }
    true
}

/// Puts an image of the given size together from the tiles that the jobs
/// handed back, in whatever order they arrived: each tile goes to the rows
/// that it names itself. `None` where no raster of that size can be made
/// or some tile does not fit the image.
pub fn assemble(image_width: u32, image_height: u32, tiles: &Vec<Tile>) -> (made: Option<Raster>)
    ensures
        made is Some <==> fits(image_width, image_height) && all_fit(
            tiles@,
            image_width as nat,
            image_height as nat,
        ),
        made matches Some(img) ==> {
            &&& img.width() == image_width
            &&& img.height() == image_height
            &&& forall|x: int, y: int|
                0 <= x < image_width && 0 <= y < image_height ==> #[trigger] img.pixel(x, y)
                    == assembled_pixel(tiles@, x, y)
        },
{
    let mut result = match Raster::new(image_width, image_height) {
        Some(img) => img,
        None => {
            return None;
        },
    };
    let mut i: usize = 0;
    while i < tiles.len()
        invariant
            i <= tiles@.len(),
            result.width() == image_width,
            result.height() == image_height,
            fits(image_width, image_height),
            all_fit(tiles@.take(i as int), image_width as nat, image_height as nat),
            forall|x: int, y: int|
                0 <= x < image_width && 0 <= y < image_height ==> #[trigger] result.pixel(x, y)
                    == assembled_pixel(tiles@.take(i as int), x, y),
        decreases tiles@.len() - i,
    {
        let ghost before = result;
        assert(tiles@.take(i + 1).drop_last() == tiles@.take(i as int));
        assert(tiles@.take(i + 1).last() == tiles@[i as int]);
        if !copy_rows(&mut result, &tiles[i]) {
            assert(!tiles@[i as int].fits_into(image_width as nat, image_height as nat));
            return None;
        }
        assert forall|k: int| 0 <= k < i + 1 implies (#[trigger] tiles@.take(i + 1)[k]).fits_into(
            image_width as nat,
            image_height as nat,
        ) by {
            if k < i {
                assert(tiles@.take(i as int)[k] == tiles@.take(i + 1)[k]);
            }
        }
        i = i + 1;
    }
    assert(tiles@.take(i as int) == tiles@);
    Some(result)
}

/// Where no row is covered twice, the order of the tiles does not matter:
/// the image shows, in every row that a tile covers, what that tile holds
/// for it.
pub proof fn lemma_assembled_by_row(tiles: Seq<Tile>, i: int, x: int, y: int)
    requires
        rows_disjoint(tiles),
        0 <= i < tiles.len(),
        tiles[i].covers(y),
    ensures
        assembled_pixel(tiles, x, y) == tiles[i].data.pixel(x, y - tiles[i].row_begin),
    decreases tiles.len(),
{
    let last = tiles.len() - 1;
    if i == last {
    } else {
        assert(!tiles[last].covers(y));
        let front = tiles.drop_last();
        assert forall|a: int, b: int, row: int|
            0 <= a < front.len() && 0 <= b < front.len() && a != b && #[trigger] front[a].covers(
                row,
            ) implies !#[trigger] front[b].covers(row) by {
            assert(front[a] == tiles[a]);
            assert(front[b] == tiles[b]);
        }
        lemma_assembled_by_row(front, i, x, y);
    }
}

/// The first row of job `i` of `n_jobs` over an image of `image_height`
/// rows, which is also the row after the last one of job `i - 1`.
pub open spec fn row_bound(image_height: nat, n_jobs: nat, i: nat) -> nat {
    image_height * i / n_jobs
}

/// The bounds of the jobs do not fall, start at zero and end at the height
/// of the image.
pub proof fn lemma_row_bounds(image_height: nat, n_jobs: nat, i: nat, j: nat)
    requires
        i <= j <= n_jobs,
        0 < n_jobs,
    ensures
        row_bound(image_height, n_jobs, 0) == 0,
        row_bound(image_height, n_jobs, n_jobs) == image_height,
        row_bound(image_height, n_jobs, i) <= row_bound(image_height, n_jobs, j) <= image_height,
{
    let h = image_height as int;
    let n = n_jobs as int;
    assert(h * 0 / n == 0);
    assert(h * n / n == h) by (nonlinear_arith)
        requires
            n > 0,
    ;
    assert(h * i / n <= h * j / n <= h) by (nonlinear_arith)
        requires
            0 <= i <= j <= n,
            0 < n,
            0 <= h,
    ;
}

/// The rows of job `i` of `n_jobs`: from the first component, included, to
/// the second, excluded.
pub fn row_range(image_height: u32, n_jobs: usize, i: usize) -> (rows: (u32, u32))
    requires
        i < n_jobs,
    ensures
        rows.0 == row_bound(image_height as nat, n_jobs as nat, i as nat),
        rows.1 == row_bound(image_height as nat, n_jobs as nat, (i + 1) as nat),
        rows.0 <= rows.1 <= image_height,
{
    proof {
        lemma_row_bounds(image_height as nat, n_jobs as nat, i as nat, (i + 1) as nat);
    }
    let h: u128 = image_height as u128;
    let n: u128 = n_jobs as u128;
    let k: u128 = i as u128;
    assert(h * k <= h * (k + 1) <= 0x1_0000_0000 * 0x1_0000_0000_0000_0000) by (nonlinear_arith)
        requires
            h < 0x1_0000_0000,
            0 <= k < n,
            n < 0x1_0000_0000_0000_0000,
    ;
    let row_begin = h * k / n;
    let row_end = h * (k + 1) / n;
    (row_begin as u32, row_end as u32)
}

/// The rows of every job, job by job.
pub fn partition(image_height: u32, n_jobs: usize) -> (ranges: Vec<(u32, u32)>)
    ensures
        ranges@.len() == n_jobs,
        forall|i: int|
            0 <= i < n_jobs ==> (#[trigger] ranges@[i]).0 == row_bound(
                image_height as nat,
                n_jobs as nat,
                i as nat,
            ) && ranges@[i].1 == row_bound(image_height as nat, n_jobs as nat, (i + 1) as nat),
{
    let mut ranges: Vec<(u32, u32)> = Vec::new();
    let mut i: usize = 0;
    while i < n_jobs
        invariant
            i <= n_jobs,
            ranges@.len() == i,
            forall|k: int|
                0 <= k < i ==> (#[trigger] ranges@[k]).0 == row_bound(
                    image_height as nat,
                    n_jobs as nat,
                    k as nat,
                ) && ranges@[k].1 == row_bound(
                    image_height as nat,
                    n_jobs as nat,
                    (k + 1) as nat,
                ),
        decreases n_jobs - i,
    {
        ranges.push(row_range(image_height, n_jobs, i));
        i = i + 1;
    }
    ranges
}

/// Whether row `y` belongs to job `i`.
pub open spec fn in_job(image_height: nat, n_jobs: nat, i: nat, y: nat) -> bool {
    row_bound(image_height, n_jobs, i) <= y < row_bound(image_height, n_jobs, i + 1)
}

/// Whether some job holds row `y`.
pub open spec fn is_covered(image_height: nat, n_jobs: nat, y: nat) -> bool {
    exists|i: nat| i < n_jobs && #[trigger] in_job(image_height, n_jobs, i, y)
}

/// From job `from` on there is a job that holds row `y`, if `y` is not
/// above the first row of job `from`.
proof fn lemma_some_job_holds(image_height: nat, n_jobs: nat, y: nat, from: nat) -> (i: nat)
    requires
        from < n_jobs,
        row_bound(image_height, n_jobs, from) <= y < image_height,
    ensures
        from <= i < n_jobs,
        in_job(image_height, n_jobs, i, y),
    decreases n_jobs - from,
{
    lemma_row_bounds(image_height, n_jobs, from, n_jobs);
    if y < row_bound(image_height, n_jobs, from + 1) {
        from
    } else {
        lemma_some_job_holds(image_height, n_jobs, y, from + 1)
    }
}

/// The partition covers the image exactly once: the rows that some job
/// holds are the rows of the image, and no row belongs to two jobs.
pub proof fn lemma_partition_is_exact(image_height: nat, n_jobs: nat)
    requires
        0 < n_jobs,
    ensures
        forall|y: nat| y < image_height <==> #[trigger] is_covered(image_height, n_jobs, y),
        forall|y: nat, i: nat, j: nat|
            i < n_jobs && j < n_jobs && #[trigger] in_job(image_height, n_jobs, i, y)
                && #[trigger] in_job(image_height, n_jobs, j, y) ==> i == j,
{
    assert forall|y: nat| y < image_height implies #[trigger] is_covered(
        image_height,
        n_jobs,
        y,
    ) by {
        lemma_row_bounds(image_height, n_jobs, 0, 0);
        let i = lemma_some_job_holds(image_height, n_jobs, y, 0);
        assert(in_job(image_height, n_jobs, i, y));
    }
    assert forall|y: nat| #[trigger] is_covered(image_height, n_jobs, y) implies y
        < image_height by {
        let i = choose|i: nat| i < n_jobs && #[trigger] in_job(image_height, n_jobs, i, y);
        lemma_row_bounds(image_height, n_jobs, i + 1, n_jobs);
    }
    assert forall|y: nat, i: nat, j: nat|
        i < n_jobs && j < n_jobs && #[trigger] in_job(image_height, n_jobs, i, y)
            && #[trigger] in_job(image_height, n_jobs, j, y) implies i == j by {
        if i < j {
            lemma_row_bounds(image_height, n_jobs, i + 1, j);
        }
        if j < i {
            lemma_row_bounds(image_height, n_jobs, j + 1, i);
        }
    }
}

/// `tiles` are the tiles of the jobs `jobs`, tile by tile: each names the
/// rows of its job.
pub open spec fn tiles_of_jobs(
    tiles: Seq<Tile>,
    jobs: Seq<nat>,
    image_height: nat,
    n_jobs: nat,
) -> bool {
    &&& tiles.len() == jobs.len()
    &&& forall|k: int|
        0 <= k < tiles.len() ==> {
            &&& (#[trigger] jobs[k]) < n_jobs
            &&& tiles[k].row_begin == row_bound(image_height, n_jobs, jobs[k])
            &&& tiles[k].row_end == row_bound(image_height, n_jobs, jobs[k] + 1)
        }
}

/// Whatever the order in which the jobs report, the image shows in every
/// row what the job of that row has rendered: where every job has handed
/// back its tile once, each row of the image is covered by one of the
/// tiles, and the assembled image holds the pixels of that tile there.
pub proof fn lemma_assembled_from_jobs(
    tiles: Seq<Tile>,
    jobs: Seq<nat>,
    image_height: nat,
    n_jobs: nat,
    x: int,
    y: nat,
) -> (k: int)
    requires
        0 < n_jobs,
        tiles_of_jobs(tiles, jobs, image_height, n_jobs),
        jobs.no_duplicates(),
        forall|i: nat| i < n_jobs ==> jobs.contains(i),
        y < image_height,
    ensures
        0 <= k < tiles.len(),
        in_job(image_height, n_jobs, jobs[k], y),
        tiles[k].covers(y as int),
        assembled_pixel(tiles, x, y as int) == tiles[k].data.pixel(x, y - tiles[k].row_begin),
{
    lemma_partition_is_exact(image_height, n_jobs);
    assert(is_covered(image_height, n_jobs, y));
    let i = choose|i: nat| i < n_jobs && #[trigger] in_job(image_height, n_jobs, i, y);
    assert(jobs.contains(i));
    let k = choose|k: int| 0 <= k < jobs.len() && jobs[k] == i;
    assert forall|a: int, b: int, row: int|
        0 <= a < tiles.len() && 0 <= b < tiles.len() && a != b && #[trigger] tiles[a].covers(
            row,
        ) implies !#[trigger] tiles[b].covers(row) by {
        if tiles[b].covers(row) {
            assert(in_job(image_height, n_jobs, jobs[a], row as nat));
            assert(in_job(image_height, n_jobs, jobs[b], row as nat));
            assert(jobs[a] == jobs[b]);
        }
    }
    lemma_assembled_by_row(tiles, k, x, y as int);
    k
}

} // verus!
