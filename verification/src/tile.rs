//! The tile packer: an image is cut into blocks of 8 by 8 pixels, and each row of a
//! block becomes two bytes, one for each bit of the eight palette indices.
//!
//! Blocks are taken row by row, left to right. Pixels that are left over beyond the
//! last whole block, at the right or at the bottom, are not packed.

use crate::image::DecodedImage;
use vstd::prelude::*;

verus! {

/// The number of pixels in one row of a tile, and of rows in a tile.
pub const PIXELS_PER_LINE: u8 = 8;

/// Bit 0 of a palette index.
pub open spec fn low_bit(c: u8) -> u8 {
    c & 0x01
}

/// Bit 1 of a palette index.
pub open spec fn high_bit(c: u8) -> u8 {
    (c >> 1) & 0x01
}

/// The bit of a palette index that goes to the low byte (`plane` 0) or to the high
/// byte (`plane` 1) of a row.
pub open spec fn plane_bit(c: u8, plane: int) -> u8 {
    if plane == 0 {
        low_bit(c)
    } else {
        high_bit(c)
    }
}

/// The byte that holds one bit of each of the first `n` indices of `row`: that of
/// pixel `p` stands at bit `7 - p`, so the leftmost pixel has the highest bit.
pub open spec fn pack_row(row: Seq<u8>, plane: int, n: int) -> u8
    decreases n,
{
    if n <= 0 {
        0
    } else {
        pack_row(row, plane, n - 1) | (plane_bit(row[n - 1], plane) << ((8 - n) as u8))
    }
}

/// The palette index that the low and high byte of a row hold for pixel `p`.
pub open spec fn unpacked(low: u8, high: u8, p: int) -> u8 {
    ((low >> ((7 - p) as u8)) & 0x01) | (((high >> ((7 - p) as u8)) & 0x01) << 1)
}

/// The number of bytes of the tile stream of an image: 16 for each whole block.
pub open spec fn packed_len(width: int, height: int) -> int {
    (width / 8) * (height / 8) * 16
}

/// The position in the pixel buffer of the leftmost pixel of the row that byte `k` of
/// the tile stream belongs to.
pub open spec fn row_start(width: int, k: int) -> int {
    let columns = width / 8;
    let tile = k / 16;
    let line = (k % 16) / 2;
    ((tile / columns) * 8 + line) * width + (tile % columns) * 8
}

/// Byte `k` of the tile stream of an image of the given width whose pixels have the
/// palette indices `indices`.
pub open spec fn tile_byte(indices: Seq<u8>, width: int, k: int) -> u8 {
    let start = row_start(width, k);
    pack_row(indices.subrange(start, start + 8), k % 2, 8)
}

/// The tile stream of an image: block after block, within a block row after row, and
/// for each row its low byte and then its high byte.
pub open spec fn packed(indices: Seq<u8>, width: int, height: int) -> Seq<u8> {
    Seq::new(packed_len(width, height) as nat, |k: int| tile_byte(indices, width, k))
}

impl DecodedImage {
    /// The palette index of every pixel, row by row.
    pub open spec fn indices(&self) -> Seq<u8> {
        Seq::new(self.image_data@.len(), |i: int| self.color_numbers@[self.image_data@[i]])
    }
}

/// The packed tiles of an image, with the name of the file that the image came from.
pub struct EncodedTile {
    pub input_filename: String,
    pub tile_data: Vec<u8>,
}

/// Tile number `row * columns + column` lies in block row `row` and block column
/// `column`.
proof fn lemma_tile_position(columns: int, row: int, column: int)
    requires
        0 <= row,
        0 <= column < columns,
    ensures
        (row * columns + column) / columns == row,
        (row * columns + column) % columns == column,
{
    vstd::arithmetic::div_mod::lemma_fundamental_div_mod_converse(
        row * columns + column,
        columns,
        row,
        column,
    );
}

/// A row of eight pixels that belongs to a whole block lies inside the pixel buffer.
proof fn lemma_row_in_image(width: int, height: int, y: int, x: int)
    by (nonlinear_arith)
    requires
        0 <= y < (height / 8) * 8,
        0 <= x,
        x + 8 <= (width / 8) * 8,
    ensures
        0 <= y * width,
        y * width + x + 8 <= width * height,
{
}

/// Packs the image into tiles.
///
/// The image is cut into blocks of 8 by 8 pixels, taken row by row from the top left.
/// Each block gives 16 bytes: for each of its rows, from the top, the low byte and
/// then the high byte, where pixel `p` of the row, counted from the left, puts bit 0
/// of its palette index at bit `7 - p` of the low byte and bit 1 at bit `7 - p` of the
/// high byte. Pixels beyond the last whole block are left out.
pub fn encode_tile(decoded_image: DecodedImage) -> (res: EncodedTile)
    requires
        decoded_image.wf(),
    ensures
        res.input_filename@ == decoded_image.input_filename@,
        res.tile_data@ == packed(
            decoded_image.indices(),
            decoded_image.info.width as int,
            decoded_image.info.height as int,
        ),
        res.tile_data@.len() == packed_len(
            decoded_image.info.width as int,
            decoded_image.info.height as int,
        ),
{
    let width = decoded_image.info.width as usize;
    let height = decoded_image.info.height as usize;
    let rows = height / 8;
    let columns = width / 8;
    let ghost idx = decoded_image.indices();
    let mut tile_data: Vec<u8> = Vec::new();
    let mut row: usize = 0;
    while row < rows
        invariant
            decoded_image.wf(),
            width == decoded_image.info.width,
            height == decoded_image.info.height,
            rows == height / 8,
            columns == width / 8,
            idx == decoded_image.indices(),
            row <= rows,
            tile_data@.len() == (row * columns) * 16,
            forall|k: int|
                0 <= k < tile_data@.len() ==> #[trigger] tile_data@[k] == tile_byte(
                    idx,
                    width as int,
                    k,
                ),
        decreases rows - row,
    {
        let mut column: usize = 0;
        while column < columns
            invariant
                decoded_image.wf(),
                width == decoded_image.info.width,
                height == decoded_image.info.height,
                rows == height / 8,
                columns == width / 8,
                idx == decoded_image.indices(),
                row < rows,
                column <= columns,
                tile_data@.len() == (row * columns + column) * 16,
                forall|k: int|
                    0 <= k < tile_data@.len() ==> #[trigger] tile_data@[k] == tile_byte(
                        idx,
                        width as int,
                        k,
                    ),
            decreases columns - column,
        {
            let ghost tile = row * columns + column;
            let mut tile_row: usize = 0;
            while tile_row < 8
                invariant
                    decoded_image.wf(),
                    width == decoded_image.info.width,
                    height == decoded_image.info.height,
                    rows == height / 8,
                    columns == width / 8,
                    idx == decoded_image.indices(),
                    row < rows,
                    column < columns,
                    tile == row * columns + column,
                    tile_row <= 8,
                    tile_data@.len() == tile * 16 + tile_row * 2,
                    forall|k: int|
                        0 <= k < tile_data@.len() ==> #[trigger] tile_data@[k] == tile_byte(
                            idx,
                            width as int,
                            k,
                        ),
                decreases 8 - tile_row,
            {
                let y = row * 8 + tile_row;
                proof {
                    lemma_row_in_image(width as int, height as int, y as int, column * 8);
                    lemma_tile_position(columns as int, row as int, column as int);
                    assert(y * width + column * 8 + 8 <= decoded_image.image_data.len());
                }
                let start = y * width + column * 8;
                let ghost pixels = idx.subrange(start as int, start + 8);
                let mut low_byte: u8 = 0;
                let mut high_byte: u8 = 0;
                let mut tile_column: usize = 0;
                while tile_column < 8
                    invariant
                        decoded_image.wf(),
                        idx == decoded_image.indices(),
                        start + 8 <= decoded_image.image_data.len(),
                        pixels == idx.subrange(start as int, start + 8),
                        tile_column <= 8,
                        low_byte == pack_row(pixels, 0, tile_column as int),
                        high_byte == pack_row(pixels, 1, tile_column as int),
                    decreases 8 - tile_column,
                {
                    let pixel = decoded_image.image_data[start + tile_column];
                    assert(decoded_image.image_data@.contains(pixel));
                    let color = decoded_image.lookup_color(&pixel);
                    assert(color == pixels[tile_column as int]);
                    let shift: u8 = PIXELS_PER_LINE - tile_column as u8 - 1;
                    low_byte = low_byte | ((color & 0x01) << shift);
                    high_byte = high_byte | (((color >> 1) & 0x01) << shift);
                    tile_column += 1;
                }
                let ghost at = tile_data@.len() as int;
                tile_data.push(low_byte);
                tile_data.push(high_byte);
                proof {
                    assert(row_start(width as int, at) == start);
                    assert(row_start(width as int, at + 1) == start);
                    assert(tile_data@[at] == tile_byte(idx, width as int, at));
                    assert(tile_data@[at + 1] == tile_byte(idx, width as int, at + 1));
                }
                tile_row += 1;
            }
            column += 1;
            assert((row * columns + column) * 16 == tile * 16 + 16) by (nonlinear_arith)
                requires
                    tile == row * columns + (column - 1),
            ;
        }
        row += 1;
        assert((row * columns) * 16 == ((row - 1) * columns + columns) * 16) by (nonlinear_arith);
    }
    proof {
        assert(row * columns == (width as int / 8) * (height as int / 8)) by (nonlinear_arith)
            requires
                row == height as int / 8,
                columns == width as int / 8,
        ;
        assert(tile_data@ =~= packed(idx, width as int, height as int));
    }
    let input_filename = decoded_image.input_filename.clone();
    EncodedTile { input_filename, tile_data }
}

/// Reads the palette index of pixel `p` of a row, counted from the left, back from
/// the low and high byte of the row.
pub fn unpack_pixel(low: u8, high: u8, p: u8) -> (res: u8)
    requires
        p < PIXELS_PER_LINE,
    ensures
        res == unpacked(low, high, p as int),
        res <= 3,
{
    let shift: u8 = PIXELS_PER_LINE - p - 1;
    let low_bit: u8 = (low >> shift) & 0x01;
    let high_bit: u8 = (high >> shift) & 0x01;
    assert(low_bit <= 1 && high_bit <= 1) by (bit_vector)
        requires
            low_bit == (low >> shift) & 0x01,
            high_bit == (high >> shift) & 0x01,
    ;
    assert((low_bit | (high_bit << 1)) <= 3) by (bit_vector)
        requires
            low_bit <= 1,
            high_bit <= 1,
    ;
    low_bit | (high_bit << 1)
}

/// The position in the tile stream of the low byte of the row that holds the pixel in
/// column `x` and row `y` of the image; the high byte follows it.
pub open spec fn stream_position(width: int, x: int, y: int) -> int {
    ((y / 8) * (width / 8) + x / 8) * 16 + (y % 8) * 2
}

/// The tile stream of an image whose width and height are multiples of 8 has a
/// quarter as many bytes as the image has pixels: two bytes for each row of eight.
pub proof fn lemma_packed_len(width: int, height: int)
    by (nonlinear_arith)
    requires
        0 <= width,
        0 <= height,
        width % 8 == 0,
        height % 8 == 0,
    ensures
        packed_len(width, height) == width * height / 4,
        packed_len(width, height) * 4 == width * height,
{
}

/// A byte of a row holds at bit `7 - p` the bit that pixel `p` gave it.
proof fn lemma_bit_of_row(row: Seq<u8>, plane: int, p: int)
    requires
        row.len() == 8,
        0 <= p < 8,
    ensures
        (pack_row(row, plane, 8) >> ((7 - p) as u8)) & 0x01 == plane_bit(row[p], plane),
{
    reveal_with_fuel(pack_row, 9);
    let b0 = plane_bit(row[0], plane);
    let b1 = plane_bit(row[1], plane);
    let b2 = plane_bit(row[2], plane);
    let b3 = plane_bit(row[3], plane);
    let b4 = plane_bit(row[4], plane);
    let b5 = plane_bit(row[5], plane);
    let b6 = plane_bit(row[6], plane);
    let b7 = plane_bit(row[7], plane);
    let byte = pack_row(row, plane, 8);
    assert(byte == ((((((((0u8 | (b0 << 7u8)) | (b1 << 6u8)) | (b2 << 5u8)) | (b3 << 4u8)) | (b4
        << 3u8)) | (b5 << 2u8)) | (b6 << 1u8)) | (b7 << 0u8)));
    assert(b0 <= 1 && b1 <= 1 && b2 <= 1 && b3 <= 1 && b4 <= 1 && b5 <= 1 && b6 <= 1 && b7 <= 1) by {
        lemma_plane_bit(row[0], plane);
        lemma_plane_bit(row[1], plane);
        lemma_plane_bit(row[2], plane);
        lemma_plane_bit(row[3], plane);
        lemma_plane_bit(row[4], plane);
        lemma_plane_bit(row[5], plane);
        lemma_plane_bit(row[6], plane);
        lemma_plane_bit(row[7], plane);
    }
    let q = p as u8;
    let bit = plane_bit(row[p], plane);
    assert((byte >> ((7 - q) as u8)) & 0x01 == bit) by (bit_vector)
        requires
            byte == ((((((((0u8 | (b0 << 7u8)) | (b1 << 6u8)) | (b2 << 5u8)) | (b3 << 4u8)) | (b4
                << 3u8)) | (b5 << 2u8)) | (b6 << 1u8)) | (b7 << 0u8)),
            b0 <= 1 && b1 <= 1 && b2 <= 1 && b3 <= 1 && b4 <= 1 && b5 <= 1 && b6 <= 1 && b7 <= 1,
            q < 8,
            bit == (if q == 0 {
                b0
            } else if q == 1 {
                b1
            } else if q == 2 {
                b2
            } else if q == 3 {
                b3
            } else if q == 4 {
                b4
            } else if q == 5 {
                b5
            } else if q == 6 {
                b6
            } else {
                b7
            }),
    ;
}

/// A plane bit is 0 or 1, and the two plane bits of an index up to 3 make it up.
proof fn lemma_plane_bit(c: u8, plane: int)
    ensures
        plane_bit(c, plane) <= 1,
        c <= 3 ==> low_bit(c) | (high_bit(c) << 1) == c,
{
    assert(c & 0x01 <= 1) by (bit_vector);
    assert((c >> 1) & 0x01 <= 1) by (bit_vector);
    assert(c <= 3 ==> (c & 0x01) | (((c >> 1) & 0x01) << 1) == c) by (bit_vector);
}

/// Unpacking the two bytes of a packed row gives back the palette index of each of
/// its eight pixels.
pub proof fn lemma_row_round_trip(row: Seq<u8>, p: int)
    requires
        row.len() == 8,
        0 <= p < 8,
        row[p] <= 3,
    ensures
        unpacked(pack_row(row, 0, 8), pack_row(row, 1, 8), p) == row[p],
{
    lemma_bit_of_row(row, 0, p);
    lemma_bit_of_row(row, 1, p);
    lemma_plane_bit(row[p], 0);
}

/// Packing and then unpacking gives back the palette index of every pixel that lies
/// in a whole block: the pixel in column `x` and row `y` is found at bit `7 - x % 8` of
/// the two bytes at its row's position in the tile stream.
pub proof fn lemma_pack_unpack_round_trip(
    indices: Seq<u8>,
    width: int,
    height: int,
    x: int,
    y: int,
)
    requires
        0 <= width,
        0 <= height,
        indices.len() == width * height,
        0 <= x < (width / 8) * 8,
        0 <= y < (height / 8) * 8,
        indices[y * width + x] <= 3,
    ensures
        0 <= stream_position(width, x, y),
        stream_position(width, x, y) + 1 < packed_len(width, height),
        0 <= y * width + x < indices.len(),
        unpacked(
            packed(indices, width, height)[stream_position(width, x, y)],
            packed(indices, width, height)[stream_position(width, x, y) + 1],
            x % 8,
        ) == indices[y * width + x],
{
    let columns = width / 8;
    let tile = (y / 8) * columns + x / 8;
    let k = stream_position(width, x, y);
    lemma_tile_position(columns, y / 8, x / 8);
    assert(0 <= tile < columns * (height / 8)) by (nonlinear_arith)
        requires
            tile == (y / 8) * columns + x / 8,
            0 <= x / 8 < columns,
            0 <= y / 8 < height / 8,
    ;
    assert(packed_len(width, height) == (columns * (height / 8)) * 16) by (nonlinear_arith)
        requires
            columns == width / 8,
    ;
    let start = row_start(width, k);
    assert(row_start(width, k + 1) == start);
    assert(start == y * width + (x / 8) * 8) by (nonlinear_arith)
        requires
            start == ((y / 8) * 8 + y % 8) * width + (x / 8) * 8,
    ;
    lemma_row_in_image(width, height, y, (x / 8) * 8);
    let row = indices.subrange(start, start + 8);
    assert(row[x % 8] == indices[y * width + x]);
    lemma_row_round_trip(row, x % 8);
}

} // verus!
