//! Black and white images, and the bit images of ESC/POS.

use vstd::arithmetic::div_mod::lemma_fundamental_div_mod_converse;
use vstd::prelude::*;

verus! {

/// A picture whose dots are black (`true`) or white, row by row from the top.
#[derive(Clone, Debug, PartialEq, Eq)]
pub struct MonoImage {
    pub width: usize,
    pub height: usize,
    pub pixels: Vec<bool>,
}

/// What an image is: its size and its dots.
pub struct Picture {
    pub width: nat,
    pub height: nat,
    pub pixels: Seq<bool>,
}

impl View for MonoImage {
    type V = Picture;

    open spec fn view(&self) -> Picture {
        Picture {
            width: self.width as nat,
            height: self.height as nat,
            pixels: self.pixels@,
        }
    }
}

impl Picture {
    /// Whether there is a dot for every place.
    pub open spec fn wf(self) -> bool {
        self.pixels.len() == self.width * self.height
    }

    /// The dot in column `x` of row `y`.
    pub open spec fn black(self, x: int, y: int) -> bool {
        self.pixels[y * self.width + x]
    }
}

/// The picture of the given size that is black where `ink` says so of column and row.
pub open spec fn picture(width: nat, height: nat, ink: spec_fn(int, int) -> bool) -> Picture {
    Picture {
        width,
        height,
        pixels: Seq::new(width * height, |i: int| ink(i % width as int, i / width as int)),
    }
}

/// A picture shows its ink.
pub proof fn lemma_picture_shows_ink(
    width: nat,
    height: nat,
    ink: spec_fn(int, int) -> bool,
    x: int,
    y: int,
)
    requires
        0 <= x < width,
        0 <= y < height,
    ensures
        picture(width, height, ink).wf(),
        picture(width, height, ink).black(x, y) == ink(x, y),
{
    lemma_place(width as int, height as int, x, y);
}

/// Every place has its own index.
pub proof fn lemma_place(width: int, height: int, x: int, y: int)
    requires
        0 <= x < width,
        0 <= y < height,
    ensures
        0 <= y * width + x < width * height,
        (y * width + x) % width == x,
        (y * width + x) / width == y,
{
    assert(y * width + x < width * height) by (nonlinear_arith)
        requires
            0 <= x < width,
            0 <= y < height,
    ;
    assert(0 <= y * width) by (nonlinear_arith)
        requires
            0 <= y,
            0 < width,
    ;
    lemma_fundamental_div_mod_converse(y * width + x, width, y, x);
}

/// Whether an image of that size, at four bytes a dot, can be in memory.
pub open spec fn image_fits(width: int, height: int) -> bool {
    4 * (width * height) <= isize::MAX
}

/// Tests whether an image of that size can be in memory.
pub fn can_hold(width: usize, height: usize) -> (fits: bool)
    ensures
        fits == image_fits(width as int, height as int),
{
    proof {
        assert(width * height <= u64::MAX * u64::MAX) by (nonlinear_arith)
            requires
                0 <= width <= u64::MAX,
                0 <= height <= u64::MAX,
        ;
    }
    let area: u128 = (width as u128) * (height as u128);
    area <= (isize::MAX as u128) / 4
}

/// The dot in place `k` of a byte, the most significant bit being place 0.
pub open spec fn dot(byte: u8, k: u8) -> bool {
    byte & (1u8 << ((7 - k) as u8)) != 0
}

fn dot_at(byte: u8, k: u8) -> (black: bool)
    requires
        k < 8,
    ensures
        black == dot(byte, k),
{
    byte & (1u8 << (7 - k)) != 0
}

/// The ink of a raster image: eight dots a byte, `width_bytes` bytes a row.
pub open spec fn raster_ink(data: Seq<u8>, width_bytes: int) -> spec_fn(int, int) -> bool {
    |x: int, y: int| dot(data[y * width_bytes + x / 8], (x % 8) as u8)
}

/// The picture of a raster image; none where it has no rows or columns, or fewer bytes than its
/// rows need.
pub open spec fn raster_picture(width_bytes: u16, height: u16, data: Seq<u8>) -> Option<Picture> {
    if width_bytes == 0 || height == 0 || data.len() < width_bytes * height {
        None
    } else {
        Some(
            picture(
                (8 * width_bytes) as nat,
                height as nat,
                raster_ink(data, width_bytes as int),
            ),
        )
    }
}

/// Whether a raster image, if it is drawn, can be in memory.
pub open spec fn raster_fits(width_bytes: u16, height: u16, data: Seq<u8>) -> bool {
    raster_picture(width_bytes, height, data) is Some ==> image_fits(
        8 * width_bytes,
        height as int,
    )
}

/// Draws a raster image (GS v 0). An image without rows or columns, or with fewer bytes than its
/// rows need, is not drawn.
pub fn raster_to_image(width_bytes: u16, height: u16, data: &[u8]) -> (result: Option<MonoImage>)
    requires
        raster_fits(width_bytes, height, data@),
    ensures
        result is None <==> raster_picture(width_bytes, height, data@) is None,
        result matches Some(image) ==> raster_picture(width_bytes, height, data@) == Some(image@),
{
    if width_bytes == 0 || height == 0 {
        return None;
    }
    let row: usize = width_bytes as usize;
    let width: usize = row * 8;
    let rows: usize = height as usize;
    assert(row * rows <= 0xFFFF * 0xFFFF) by (nonlinear_arith)
        requires
            0 <= rows <= 0xFFFF,
            0 <= row <= 0xFFFF,
    ;
    if data.len() < row * rows {
        return None;
    }
    let ghost ink = raster_ink(data@, row as int);
    let held: usize = data.len();
    assert(0 * width == 0) by (nonlinear_arith);
    let mut pixels: Vec<bool> = Vec::new();
    for y in 0..rows
        invariant
            row == width_bytes,
            width == 8 * row,
            width > 0,
            rows == height,
            row * rows <= held == data@.len(),
            ink == raster_ink(data@, row as int),
            pixels@.len() == y * width,
            forall|i: int|
                0 <= i < pixels@.len() ==> #[trigger] pixels@[i] == ink(
                    i % width as int,
                    i / width as int,
                ),
    {
        for x in 0..width
            invariant
                row == width_bytes,
                width == 8 * row,
                width > 0,
                rows == height,
                y < rows,
                row * rows <= held == data@.len(),
                ink == raster_ink(data@, row as int),
                pixels@.len() == y * width + x,
                forall|i: int|
                    0 <= i < pixels@.len() ==> #[trigger] pixels@[i] == ink(
                        i % width as int,
                        i / width as int,
                    ),
        {
            proof {
                lemma_place(width as int, rows as int, x as int, y as int);
                lemma_place(row as int, rows as int, x as int / 8, y as int);
            }
            pixels.push(dot_at(data[y * row + x / 8], (x % 8) as u8));
        }
        assert((y + 1) * width == y * width + width) by (nonlinear_arith);
    }
    assert(rows * width == width * rows) by (nonlinear_arith);
    let image = MonoImage { width, height: rows, pixels };
    assert(image@.pixels =~= picture(width as nat, rows as nat, ink).pixels);
    Some(image)
}

/// Bytes of one column of a bit image: three in the modes of 24 pins, else one.
pub open spec fn column_bytes(mode: u8) -> int {
    if mode == 32 || mode == 33 {
        3
    } else {
        1
    }
}

/// The ink of a bit image: columns of `bytes` bytes, the top dot first.
pub open spec fn column_ink(data: Seq<u8>, bytes: int) -> spec_fn(int, int) -> bool {
    |x: int, y: int| dot(data[x * bytes + y / 8], (y % 8) as u8)
}

/// The picture of a column bit image, 8 or 24 dots high by its mode; none where it has no columns,
/// or fewer bytes than they need.
pub open spec fn column_picture(mode: u8, width: u16, data: Seq<u8>) -> Option<Picture> {
    if width == 0 || data.len() < width * column_bytes(mode) {
        None
    } else {
        Some(
            picture(
                width as nat,
                (8 * column_bytes(mode)) as nat,
                column_ink(data, column_bytes(mode)),
            ),
        )
    }
}

/// Draws a column bit image (ESC *), 8 or 24 dots high by its mode. An image without columns, or
/// with fewer bytes than they need, is not drawn.
pub fn bitimage_to_image(mode: u8, width: u16, data: &[u8]) -> (result: Option<MonoImage>)
    ensures
        result is None <==> column_picture(mode, width, data@) is None,
        result matches Some(image) ==> column_picture(mode, width, data@) == Some(image@),
{
    if width == 0 {
        return None;
    }
    let bytes: usize = match mode {
        32 | 33 => 3,
        _ => 1,
    };
    let columns: usize = width as usize;
    let rows: usize = 8 * bytes;
    if data.len() < columns * bytes {
        return None;
    }
    let ghost ink = column_ink(data@, bytes as int);
    assert(0 * columns == 0) by (nonlinear_arith);
    let mut pixels: Vec<bool> = Vec::new();
    for y in 0..rows
        invariant
            0 < columns <= 0xFFFF,
            bytes == 1 || bytes == 3,
            rows == 8 * bytes,
            columns * bytes <= data@.len(),
            ink == column_ink(data@, bytes as int),
            pixels@.len() == y * columns,
            forall|i: int|
                0 <= i < pixels@.len() ==> #[trigger] pixels@[i] == ink(
                    i % columns as int,
                    i / columns as int,
                ),
    {
        for x in 0..columns
            invariant
                0 < columns <= 0xFFFF,
                bytes == 1 || bytes == 3,
                rows == 8 * bytes,
                y < rows,
                columns * bytes <= data@.len(),
                ink == column_ink(data@, bytes as int),
                pixels@.len() == y * columns + x,
                forall|i: int|
                    0 <= i < pixels@.len() ==> #[trigger] pixels@[i] == ink(
                        i % columns as int,
                        i / columns as int,
                    ),
        {
            proof {
                lemma_place(columns as int, rows as int, x as int, y as int);
                lemma_place(bytes as int, columns as int, y as int / 8, x as int);
            }
            pixels.push(dot_at(data[x * bytes + y / 8], (y % 8) as u8));
        }
        assert((y + 1) * columns == y * columns + columns) by (nonlinear_arith);
    }
    assert(rows * columns == columns * rows) by (nonlinear_arith);
    let image = MonoImage { width: columns, height: rows, pixels };
    assert(image@.pixels =~= picture(columns as nat, rows as nat, ink).pixels);
    Some(image)
}

/// A raster row of `n` bytes shows byte `b` in its columns `8 * b` to `8 * b + 7`.
pub proof fn lemma_raster_dot(data: Seq<u8>, width_bytes: nat, height: nat, b: int, k: int, y: int)
    requires
        0 <= b < width_bytes,
        0 <= k < 8,
        0 <= y < height,
    ensures
        picture(8 * width_bytes, height, raster_ink(data, width_bytes as int)).black(8 * b + k, y)
            == dot(data[y * width_bytes + b], k as u8),
{
    lemma_picture_shows_ink(
        8 * width_bytes,
        height,
        raster_ink(data, width_bytes as int),
        8 * b + k,
        y,
    );
    assert((8 * b + k) / 8 == b && (8 * b + k) % 8 == k);
}

/// A column of a bit image shows byte `b` in its rows `8 * b` to `8 * b + 7`.
pub proof fn lemma_column_dot(data: Seq<u8>, mode: u8, width: nat, x: int, b: int, k: int)
    requires
        0 <= x < width,
        0 <= b < column_bytes(mode),
        0 <= k < 8,
    ensures
        picture(
            width,
            (8 * column_bytes(mode)) as nat,
            column_ink(data, column_bytes(mode)),
        ).black(x, 8 * b + k) == dot(data[x * column_bytes(mode) + b], k as u8),
{
    lemma_picture_shows_ink(
        width,
        (8 * column_bytes(mode)) as nat,
        column_ink(data, column_bytes(mode)),
        x,
        8 * b + k,
    );
    assert((8 * b + k) / 8 == b && (8 * b + k) % 8 == k);
}

/// What the bit in place `k` of a byte is worth, counted from the most significant one.
pub open spec fn bit_worth(k: int) -> int {
    seq![128int, 64, 32, 16, 8, 4, 2, 1][k]
}

/// The dots of a byte are the digits of its binary numeral, the first of them worth 128.
pub proof fn lemma_dot_is_a_binary_digit(byte: u8, k: int)
    requires
        0 <= k < 8,
    ensures
        dot(byte, k as u8) <==> byte as int / bit_worth(k) % 2 == 1,
{
    assert((byte & (1u8 << 7u8) != 0) == (byte / 128 % 2 == 1) && (byte & (1u8 << 6u8) != 0) == (
    byte / 64 % 2 == 1) && (byte & (1u8 << 5u8) != 0) == (byte / 32 % 2 == 1) && (byte & (1u8
        << 4u8) != 0) == (byte / 16 % 2 == 1) && (byte & (1u8 << 3u8) != 0) == (byte / 8 % 2 == 1)
        && (byte & (1u8 << 2u8) != 0) == (byte / 4 % 2 == 1) && (byte & (1u8 << 1u8) != 0) == (byte
        / 2 % 2 == 1) && (byte & (1u8 << 0u8) != 0) == (byte / 1 % 2 == 1)) by (bit_vector);
}

/// A raster image has eight columns for each byte of a row. It is drawn where it has rows and
/// columns and all of its bytes are there, and is as wide and high as it says.
pub proof fn lemma_raster_size(width_bytes: u16, height: u16, data: Seq<u8>)
    ensures
        raster_picture(width_bytes, height, data) is Some <==> width_bytes > 0 && height > 0
            && width_bytes * height <= data.len(),
        raster_picture(width_bytes, height, data) matches Some(p) ==> p.width == 8 * width_bytes
            && p.height == height && p.pixels.len() == (8 * width_bytes) * height,
{
}

/// In row `y` of a raster image the eight dots from column `8 * b` on are the bits of byte `b` of
/// that row, the most significant one first, and black where they are one.
pub proof fn lemma_raster_pixel(
    width_bytes: u16,
    height: u16,
    data: Seq<u8>,
    b: int,
    k: int,
    y: int,
)
    requires
        width_bytes * height <= data.len(),
        0 <= b < width_bytes,
        0 <= k < 8,
        0 <= y < height,
    ensures
        raster_picture(width_bytes, height, data) matches Some(p) && p.pixels[y * (8 * width_bytes)
            + (8 * b + k)] == (data[y * width_bytes + b] as int / bit_worth(k) % 2 == 1),
{
    let wide = 8 * width_bytes as int;
    lemma_place(wide, height as int, 8 * b + k, y);
    lemma_dot_is_a_binary_digit(data[y * width_bytes + b], k);
    assert((8 * b + k) / 8 == b && (8 * b + k) % 8 == k);
    let i = y * wide + (8 * b + k);
    let p = raster_picture(width_bytes, height, data)->0;
    assert(p.pixels[i] == raster_ink(data, width_bytes as int)(i % wide, i / wide));
}

/// A column bit image has three bytes a column in the modes 32 and 33 and one in any other, and
/// eight rows for each of them. It is drawn where it has columns and all of its bytes are there.
pub proof fn lemma_column_size(mode: u8, width: u16, data: Seq<u8>)
    ensures
        ({
            let bytes = if mode == 32 || mode == 33 {
                3int
            } else {
                1
            };
            &&& column_picture(mode, width, data) is Some <==> width > 0 && width * bytes
                <= data.len()
            &&& column_picture(mode, width, data) matches Some(p) ==> p.width == width && p.height
                == 8 * bytes && p.pixels.len() == width * (8 * bytes)
        }),
{
}

/// In column `x` of a column bit image the eight dots from row `8 * b` down are the bits of byte `b`
/// of that column, the most significant one first, and black where they are one.
pub proof fn lemma_column_pixel(mode: u8, width: u16, data: Seq<u8>, x: int, b: int, k: int)
    requires
        0 <= x < width,
        0 <= b < (if mode == 32 || mode == 33 {
            3int
        } else {
            1
        }),
        0 <= k < 8,
        width * (if mode == 32 || mode == 33 {
            3int
        } else {
            1
        }) <= data.len(),
    ensures
        ({
            let bytes = if mode == 32 || mode == 33 {
                3int
            } else {
                1
            };
            column_picture(mode, width, data) matches Some(p) && p.pixels[(8 * b + k) * width + x]
                == (data[x * bytes + b] as int / bit_worth(k) % 2 == 1)
        }),
{
    let bytes = column_bytes(mode);
    let wide = width as int;
    lemma_place(wide, 8 * bytes, x, 8 * b + k);
    lemma_dot_is_a_binary_digit(data[x * bytes + b], k);
    assert((8 * b + k) / 8 == b && (8 * b + k) % 8 == k);
    let i = (8 * b + k) * wide + x;
    let p = column_picture(mode, width, data)->0;
    assert(p.pixels[i] == column_ink(data, bytes)(i % wide, i / wide));
}

/// The view of an image holds its size and its dots.
pub proof fn lemma_view_of_an_image(image: MonoImage)
    ensures
        image@.width == image.width,
        image@.height == image.height,
        image@.pixels == image.pixels@,
{
}

/// Images of up to 268435456 dots can be in memory, whatever their shape.
pub proof fn lemma_ordinary_images_fit(width: int, height: int)
    requires
        width * height <= 0x1000_0000,
    ensures
        image_fits(width, height),
{
}

} // verus!
