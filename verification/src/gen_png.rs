//! Images: the raster of positions, the pixel bytes of an expression, and
//! their encoding as a PNG file.

use vstd::prelude::*;
use vstd::arithmetic::div_mod::lemma_fundamental_div_mod_converse;
use crate::eval::{color_triple, Color};
use crate::expr::{IExpr, Position};
use crate::meaning::{channel, is_byte, Triple};

verus! {

/// The bytes of the PNG file that the `png` crate's encoder makes of an
/// image of the given size whose pixels are `data`: four bytes for each
/// pixel, row by row.
pub uninterp spec fn png_of_rgba(width: u32, height: u32, data: Seq<u8>) -> Seq<u8>;

/// Appends to `w` a PNG file with eight bits for each of red, green, blue
/// and alpha. This drives `png::Encoder` (`new`, `set_color`, `set_depth`,
/// `write_header`) and `png::Writer::write_image_data`; the contract names
/// what they write and says that it comes after what `w` held. The encoder
/// refuses an image without pixels and data of another length than four
/// bytes for each pixel; the precondition excludes both.
#[verifier::external_body]
pub fn write_rgba_image_data(w: &mut Vec<u8>, width: u32, height: u32, data: &[u8])
    requires
        width > 0,
        height > 0,
        data@.len() == 4 * width * height,
    ensures
        final(w)@ == old(w)@ + png_of_rgba(width, height, data@),
{
    let mut encoder = png::Encoder::new(w, width, height);
    encoder.set_color(png::ColorType::RGBA);
    encoder.set_depth(png::BitDepth::Eight);
    encoder.write_header().unwrap().write_image_data(data).unwrap();
}

/// The positions of a grid, row by row: the position `k` lies in column
/// `k % width` of row `k / width`.
pub open spec fn raster(width: u32, height: u32) -> Seq<Position> {
    Seq::new((width * height) as nat, |k: int| raster_at(width, k))
}

/// The position `k` of a grid of the given width.
pub open spec fn raster_at(width: u32, k: int) -> Position {
    ((k % width as int) as i32, (k / width as int) as i32)
}

/// An image of this size can be held: it has pixels, and its bytes can be
/// counted in 32 bits.
pub open spec fn image_fits(width: u32, height: u32, scale: u32) -> bool {
    &&& width > 0
    &&& height > 0
    &&& scale > 0
    &&& 4 * (scale * width) * (scale * height) <= u32::MAX
}

/// Every channel of every value is a byte.
pub open spec fn all_bytes(vals: Seq<Triple>) -> bool {
    forall|k: int|
        0 <= k < vals.len() ==> is_byte((#[trigger] vals[k]).0) && is_byte(vals[k].1) && is_byte(
            vals[k].2,
        )
}

/// The byte `i` of the image of `vals`, a grid of the given width in which
/// every value fills a square of `scale` by `scale` pixels. A pixel is four
/// bytes: red, green, blue, and 255 for full opacity.
pub open spec fn image_byte(vals: Seq<Triple>, width: int, scale: int, i: int) -> u8 {
    let pixel = i / 4;
    let row = pixel / (scale * width);
    let column = pixel % (scale * width);
    let at = (row / scale) * width + column / scale;
    if i % 4 == 3 {
        255u8
    } else {
        channel(vals[at], i % 4) as u8
    }
}

/// The bytes of the image of `vals`.
pub open spec fn image_bytes(vals: Seq<Triple>, width: u32, height: u32, scale: u32) -> Seq<u8> {
    Seq::new(
        (4 * (scale * width) * (scale * height)) as nat,
        |i: int| image_byte(vals, width as int, scale as int, i),
    )
}

/// The positions of a grid, row by row.
pub fn raster_positions(width: u32, height: u32) -> (positions: Vec<Position>)
    requires
        width <= i32::MAX,
        height <= i32::MAX,
        width * height <= usize::MAX,
    ensures
        positions@ == raster(width, height),
{
    let mut positions: Vec<Position> = Vec::new();
    let mut y: u32 = 0;
    while y < height
        invariant
            y <= height,
            width <= i32::MAX,
            height <= i32::MAX,
            positions@.len() == width * y,
            forall|k: int| 0 <= k < positions@.len() ==> (#[trigger] positions@[k]) == raster_at(width, k),
        decreases height - y,
    {
        let mut x: u32 = 0;
        while x < width
            invariant
                x <= width,
                y < height,
                width <= i32::MAX,
                height <= i32::MAX,
                positions@.len() == width * y + x,
                forall|k: int| 0 <= k < positions@.len() ==> (#[trigger] positions@[k]) == raster_at(width, k),
            decreases width - x,
        {
            proof {
                let k = width * y + x;
                assert(width * y == y * width) by (nonlinear_arith);
                lemma_fundamental_div_mod_converse(k, width as int, y as int, x as int);
            }
            positions.push((x as i32, y as i32));
            x += 1;
        }
        assert(width * y + width == width * (y + 1)) by (nonlinear_arith);
        y += 1;
    }
    assert(positions@ =~= raster(width, height));
    positions
}

/// The byte `j` of a row of pixels made of the row `y` of the grid.
pub open spec fn row_byte(vals: Seq<Triple>, width: int, scale: int, y: int, j: int) -> u8 {
    let at = y * width + (j / 4) / scale;
    if j % 4 == 3 {
        255u8
    } else {
        channel(vals[at], j % 4) as u8
    }
}

/// The rows of pixels from `scale * y` on, `scale` of them, all hold the
/// row `y` of the grid.
proof fn lemma_image_byte_in_row(vals: Seq<Triple>, width: int, scale: int, y: int, s: int, j: int)
    requires
        width > 0,
        scale > 0,
        y >= 0,
        0 <= s < scale,
        0 <= j < 4 * (scale * width),
    ensures
        image_byte(vals, width, scale, 4 * (scale * width) * (scale * y + s) + j) == row_byte(
            vals,
            width,
            scale,
            y,
            j,
        ),
{
    let iw = scale * width;
    let big_row = scale * y + s;
    let i = 4 * iw * big_row + j;
    assert(iw > 0) by (nonlinear_arith)
        requires
            iw == scale * width,
            scale > 0,
            width > 0,
    ;
    assert(4 * iw * big_row == (iw * big_row) * 4) by (nonlinear_arith);
    assert(i == (iw * big_row + j / 4) * 4 + j % 4);
    lemma_fundamental_div_mod_converse(i, 4, iw * big_row + j / 4, j % 4);
    assert(iw * big_row == big_row * iw) by (nonlinear_arith);
    lemma_fundamental_div_mod_converse(i / 4, iw, big_row, j / 4);
    assert(scale * y == y * scale) by (nonlinear_arith);
    lemma_fundamental_div_mod_converse(big_row, scale, y, s);
}

/// The pixel `x` of a row fills the bytes from `4 * scale * x` on.
proof fn lemma_row_byte_in_pixel(vals: Seq<Triple>, width: int, scale: int, y: int, x: int, s: int, c: int)
    requires
        scale > 0,
        x >= 0,
        0 <= s < scale,
        0 <= c < 4,
    ensures
        row_byte(vals, width, scale, y, 4 * (scale * x + s) + c) == if c == 3 {
            255u8
        } else {
            channel(vals[y * width + x], c) as u8
        },
{
    let j = 4 * (scale * x + s) + c;
    lemma_fundamental_div_mod_converse(j, 4, scale * x + s, c);
    assert(scale * x == x * scale) by (nonlinear_arith);
    lemma_fundamental_div_mod_converse(scale * x + s, scale, x, s);
}

/// The value as a pixel with full opacity, where its channels are bytes.
fn pixel_of(color: &Color) -> (pixel: Option<[u8; 4]>)
    ensures
        pixel is Some <==> is_byte(color[0]) && is_byte(color[1]) && is_byte(color[2]),
        pixel matches Some(p) ==> p[0] == color[0] && p[1] == color[1] && p[2] == color[2] && p[3]
            == 255,
{
    let r = color[0];
    let g = color[1];
    let b = color[2];
    if 0 <= r && r <= 255 && 0 <= g && g <= 255 && 0 <= b && b <= 255 {
        Some([r as u8, g as u8, b as u8, 0xff])
    } else {
        None
    }
}

impl IExpr {
    /// The pixel bytes of the image that the expression makes on a grid of
    /// `width` by `height` positions, each of which fills a square of
    /// `scale` by `scale` pixels. There is no image where a channel of a
    /// value is no byte.
    pub fn image_data(&self, width: u32, height: u32, scale: u32) -> (data: Option<Vec<u8>>)
        requires
            self.well_formed(),
            image_fits(width, height, scale),
        ensures
            data is Some <==> all_bytes(self.values(raster(width, height))),
            data matches Some(bytes) ==> bytes@ == image_bytes(
                self.values(raster(width, height)),
                width,
                height,
                scale,
            ),
    {
        let ghost vals = self.values(raster(width, height));
        proof {
            self.lemma_values_len(raster(width, height));
            lemma_image_size(width as int, height as int, scale as int);
        }
        let positions = raster_positions(width, height);
        let colors = self.eval_batch(positions.as_slice());
        let image_width: u32 = scale * width;
        let row_len: usize = 4 * image_width as usize;
        let mut data: Vec<u8> = Vec::new();
        let mut y: u32 = 0;
        assert(row_len * (scale * 0) == 0 && width * 0 == 0) by (nonlinear_arith);
        while y < height
            invariant
                y <= height,
                image_fits(width, height, scale),
                image_width == scale * width,
                row_len == 4 * image_width,
                vals == self.values(raster(width, height)),
                vals.len() == width * height,
                self.renders(raster(width, height), colors@),
                data@.len() == row_len * (scale * y),
                forall|i: int|
                    0 <= i < data@.len() ==> (#[trigger] data@[i]) == image_byte(
                        vals,
                        width as int,
                        scale as int,
                        i,
                    ),
                forall|k: int|
                    0 <= k < width * y ==> is_byte((#[trigger] vals[k]).0) && is_byte(vals[k].1)
                        && is_byte(vals[k].2),
            decreases height - y,
        {
            let mut current_row: Vec<u8> = Vec::new();
            let mut x: u32 = 0;
            while x < width
                invariant
                    x <= width,
                    y < height,
                    image_fits(width, height, scale),
                    image_width == scale * width,
                    vals == self.values(raster(width, height)),
                    vals.len() == width * height,
                    self.renders(raster(width, height), colors@),
                    current_row@.len() == 4 * (scale * x),
                    forall|j: int|
                        0 <= j < current_row@.len() ==> (#[trigger] current_row@[j]) == row_byte(
                            vals,
                            width as int,
                            scale as int,
                            y as int,
                            j,
                        ),
                    forall|k: int|
                        0 <= k < width * y + x ==> is_byte((#[trigger] vals[k]).0) && is_byte(
                            vals[k].1,
                        ) && is_byte(vals[k].2),
                decreases width - x,
            {
                proof {
                    lemma_grid_index(width as int, height as int, y as int, x as int);
                    lemma_image_size(width as int, height as int, scale as int);
                }
                let at: usize = (y as usize) * (width as usize) + (x as usize);
                assert(color_triple(colors@[at as int]) == vals[at as int]);
                let pixel = match pixel_of(&colors[at]) {
                    Some(pixel) => pixel,
                    None => {
                        return None;
                    },
                };
                let mut s: u32 = 0;
                while s < scale
                    invariant
                        s <= scale,
                        x < width,
                        scale > 0,
                        at == y * width + x,
                        pixel[0] == vals[at as int].0,
                        pixel[1] == vals[at as int].1,
                        pixel[2] == vals[at as int].2,
                        pixel[3] == 255,
                        4 * (scale * width) * (scale * height) <= u32::MAX,
                        current_row@.len() == 4 * (scale * x + s),
                        forall|j: int|
                            0 <= j < current_row@.len() ==> (#[trigger] current_row@[j])
                                == row_byte(vals, width as int, scale as int, y as int, j),
                    decreases scale - s,
                {
                    proof {
                        lemma_row_byte_in_pixel(vals, width as int, scale as int, y as int, x as int, s as int, 0);
                        lemma_row_byte_in_pixel(vals, width as int, scale as int, y as int, x as int, s as int, 1);
                        lemma_row_byte_in_pixel(vals, width as int, scale as int, y as int, x as int, s as int, 2);
                        lemma_row_byte_in_pixel(vals, width as int, scale as int, y as int, x as int, s as int, 3);
                    }
                    current_row.push(pixel[0]);
                    current_row.push(pixel[1]);
                    current_row.push(pixel[2]);
                    current_row.push(pixel[3]);
                    s += 1;
                }
                assert(4 * (scale * x + scale) == 4 * (scale * (x + 1))) by (nonlinear_arith);
                x += 1;
            }
            let mut s: u32 = 0;
            while s < scale
                invariant
                    s <= scale,
                    y < height,
                    image_fits(width, height, scale),
                    image_width == scale * width,
                    row_len == 4 * image_width,
                    current_row@.len() == row_len,
                    forall|j: int|
                        0 <= j < current_row@.len() ==> (#[trigger] current_row@[j]) == row_byte(
                            vals,
                            width as int,
                            scale as int,
                            y as int,
                            j,
                        ),
                    data@.len() == row_len * (scale * y + s),
                    forall|i: int|
                        0 <= i < data@.len() ==> (#[trigger] data@[i]) == image_byte(
                            vals,
                            width as int,
                            scale as int,
                            i,
                        ),
                decreases scale - s,
            {
                let ghost base = data@.len() as int;
                let mut j: usize = 0;
                while j < row_len
                    invariant
                        j <= row_len,
                        s < scale,
                        y < height,
                        image_fits(width, height, scale),
                        image_width == scale * width,
                        row_len == 4 * image_width,
                        current_row@.len() == row_len,
                        forall|j: int|
                            0 <= j < current_row@.len() ==> (#[trigger] current_row@[j])
                                == row_byte(vals, width as int, scale as int, y as int, j),
                        base == row_len * (scale * y + s),
                        data@.len() == base + j,
                        forall|i: int|
                            0 <= i < data@.len() ==> (#[trigger] data@[i]) == image_byte(
                                vals,
                                width as int,
                                scale as int,
                                i,
                            ),
                    decreases row_len - j,
                {
                    proof {
                        lemma_image_byte_in_row(
                            vals,
                            width as int,
                            scale as int,
                            y as int,
                            s as int,
                            j as int,
                        );
                    }
                    data.push(current_row[j]);
                    j += 1;
                }
                assert(row_len * (scale * y + s) + row_len == row_len * (scale * y + (s + 1)))
                    by (nonlinear_arith);
                s += 1;
            }
            assert(scale * y + scale == scale * (y + 1)) by (nonlinear_arith);
            assert(width * y + width == width * (y + 1)) by (nonlinear_arith);
            y += 1;
        }
        assert(row_len * (scale * height) == 4 * (scale * width) * (scale * height))
            by (nonlinear_arith)
            requires
                row_len == 4 * (scale * width),
        ;
        assert(data@ =~= image_bytes(vals, width, height, scale));
        Some(data)
    }
}

impl IExpr {
    /// Appends to `w` the PNG file of the image that the expression makes
    /// on a grid of `width` by `height` positions, each of which fills a
    /// square of `scale` by `scale` pixels.
    pub fn write_image_data(&self, w: &mut Vec<u8>, width: u32, height: u32, scale: u32)
        requires
            self.well_formed(),
            image_fits(width, height, scale),
            all_bytes(self.values(raster(width, height))),
        ensures
            final(w)@ == old(w)@ + png_of_rgba(
                (scale * width) as u32,
                (scale * height) as u32,
                image_bytes(self.values(raster(width, height)), width, height, scale),
            ),
    {
        proof {
            lemma_image_size(width as int, height as int, scale as int);
            assert(scale * width > 0 && scale * height > 0) by (nonlinear_arith)
                requires
                    scale > 0,
                    width > 0,
                    height > 0,
            ;
        }
        let image_width = scale * width;
        let image_height = scale * height;
        match self.image_data(width, height, scale) {
            Some(data) => write_rgba_image_data(w, image_width, image_height, data.as_slice()),
            None => {},
        }
    }

    /// Under a root that is normalisation, remainder by 256 or clamping,
    /// every channel at every position is a byte.
    pub proof fn lemma_wrapped_root_all_bytes(self, ps: Seq<Position>)
        requires
            self.byte_ranged(),
        ensures
            all_bytes(self.values(ps)),
    {
        self.lemma_values_len(ps);
        assert forall|k: int| 0 <= k < self.values(ps).len() implies is_byte(
            (#[trigger] self.values(ps)[k]).0,
        ) && is_byte(self.values(ps)[k].1) && is_byte(self.values(ps)[k].2) by {
            self.lemma_wrapped_root_gives_bytes(ps, k);
        }
    }
}

/// An image that fits has a grid whose positions can be counted, and
/// whose columns and rows are positions.
proof fn lemma_image_size(width: int, height: int, scale: int)
    requires
        width > 0,
        height > 0,
        scale > 0,
        4 * (scale * width) * (scale * height) <= u32::MAX,
    ensures
        4 * (width * height) <= u32::MAX,
        4 * (scale * width) <= u32::MAX,
        4 * (scale * height) <= u32::MAX,
        4 * width <= u32::MAX,
        4 * height <= u32::MAX,
{
    assert(width <= scale * width && height <= scale * height) by (nonlinear_arith)
        requires
            width > 0,
            height > 0,
            scale > 0,
    ;
    let iw = scale * width;
    let ih = scale * height;
    assert(width * height <= iw * ih && iw <= iw * ih && ih <= iw * ih && 4 * iw * ih == 4 * (iw * ih))
        by (nonlinear_arith)
        requires
            0 < width <= iw,
            0 < height <= ih,
    ;
}

/// The position at column `x` of row `y` is one of the grid.
proof fn lemma_grid_index(width: int, height: int, y: int, x: int)
    requires
        0 <= x < width,
        0 <= y < height,
    ensures
        0 <= y * width + x < width * height,
        y * width == width * y,
{
    assert(0 <= y * width + x < width * height && y * width == width * y) by (nonlinear_arith)
        requires
            0 <= x < width,
            0 <= y < height,
    ;
}

} // verus!
