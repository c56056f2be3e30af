use vstd::prelude::*;
use crate::error::Error;
use crate::primitives::{inflate, zlib_inflated};

verus! {

/// How the pixels of a lossless bitmap are stored.
#[derive(Clone, Copy, Debug, PartialEq, Eq, Structural)]
pub enum BitmapFormat {
    /// One palette index per pixel, rows padded to a multiple of 4 bytes.
    ColorMap8,
    /// 15-bit truecolor.
    Rgb15,
    /// Four bytes per pixel.
    Rgb32,
}

/// A lossless bitmap as the container stores it: zlib-compressed pixel data
/// with its declared layout.
#[derive(Clone, Debug)]
pub struct DefineBitsLossless {
    pub version: u8,
    pub format: BitmapFormat,
    pub width: u16,
    pub height: u16,
    /// The largest palette index; the palette holds one entry more.
    pub num_colors: u8,
    pub data: Vec<u8>,
}

/// An RGBA color.
#[derive(Clone, Copy, Debug, PartialEq, Eq, Structural)]
pub struct Color {
    pub r: u8,
    pub g: u8,
    pub b: u8,
    pub a: u8,
}

pub open spec fn color_bytes(c: Color) -> Seq<u8> {
    seq![c.r, c.g, c.b, c.a]
}

/// Bytes per palette entry: RGB in version 1, RGBA in version 2.
pub open spec fn palette_entry_len(version: u8) -> nat {
    if version == 1 {
        3
    } else {
        4
    }
}

/// Palette entry `i`; version 1 entries are opaque.
pub open spec fn palette_entry(decoded: Seq<u8>, version: u8, i: int) -> Color {
    if version == 1 {
        Color { r: decoded[3 * i], g: decoded[3 * i + 1], b: decoded[3 * i + 2], a: 255 }
    } else {
        Color { r: decoded[4 * i], g: decoded[4 * i + 1], b: decoded[4 * i + 2], a: decoded[4 * i + 3] }
    }
}

/// The palette at the start of the decoded data: `num_colors + 1` entries.
pub open spec fn palette_of(decoded: Seq<u8>, version: u8, num_colors: u8) -> Seq<Color> {
    Seq::new(num_colors as nat + 1, |i: int| palette_entry(decoded, version, i))
}

/// The color of an index outside the palette: opaque black in version 1,
/// transparent black in version 2.
pub open spec fn missing_color(version: u8) -> Color {
    Color { r: 0, g: 0, b: 0, a: if version == 1 { 255 } else { 0 } }
}

pub open spec fn lookup_color(palette: Seq<Color>, version: u8, index: u8) -> Color {
    if (index as int) < palette.len() {
        palette[index as int]
    } else {
        missing_color(version)
    }
}

/// The row length in bytes of palette indices: `width` rounded up to a multiple of 4.
pub open spec fn padded_width(width: u16) -> int {
    (width + 3) / 4 * 4
}

/// RGBA bytes of the first `cols` pixels of the row whose indices start at `row_start`.
pub open spec fn colormap_row(
    decoded: Seq<u8>,
    palette: Seq<Color>,
    version: u8,
    row_start: int,
    cols: nat,
) -> Seq<u8>
    decreases cols,
{
    if cols == 0 {
        Seq::empty()
    } else {
        colormap_row(decoded, palette, version, row_start, (cols - 1) as nat) + color_bytes(
            lookup_color(palette, version, decoded[row_start + cols - 1]),
        )
    }
}

/// Where the palette indices start.
pub open spec fn indices_start(version: u8, num_colors: u8) -> int {
    (num_colors + 1) * palette_entry_len(version)
}

/// RGBA bytes of the first `rows` rows of a palettized image.
pub open spec fn colormap_rows(
    decoded: Seq<u8>,
    version: u8,
    num_colors: u8,
    width: u16,
    rows: nat,
) -> Seq<u8>
    decreases rows,
{
    if rows == 0 {
        Seq::empty()
    } else {
        colormap_rows(decoded, version, num_colors, width, (rows - 1) as nat) + colormap_row(
            decoded,
            palette_of(decoded, version, num_colors),
            version,
            indices_start(version, num_colors) + (rows - 1) * padded_width(width),
            width as nat,
        )
    }
}

/// The decoded length that a palettized image needs: the palette, then every
/// row's indices, the last row's padding aside.
pub open spec fn colormap_len(version: u8, num_colors: u8, width: u16, height: u16) -> int {
    if width == 0 || height == 0 {
        indices_start(version, num_colors)
    } else {
        indices_start(version, num_colors) + (height - 1) * padded_width(width) + width
    }
}

/// RGBA bytes of the first `n` pixels of a 32-bit image: each group
/// (A, R, G, B) becomes (R, G, B, A), where version 1 ignores A and makes the
/// pixel opaque.
pub open spec fn rgb32_pixels(decoded: Seq<u8>, version: u8, n: nat) -> Seq<u8>
    decreases n,
{
    if n == 0 {
        Seq::empty()
    } else {
        let o = 4 * (n - 1);
        rgb32_pixels(decoded, version, (n - 1) as nat) + seq![
            decoded[o + 1],
            decoded[o + 2],
            decoded[o + 3],
            if version == 1 {
                0xFFu8
            } else {
                decoded[o]
            },
        ]
    }
}

/// The RGBA bytes of a lossless bitmap, from its inflated pixel data.
pub open spec fn lossless_rgba(tag: DefineBitsLossless, decoded: Seq<u8>) -> Result<Seq<u8>, Error> {
    let supported = tag.version == 1 || tag.version == 2;
    if supported && tag.format == BitmapFormat::Rgb32 {
        if decoded.len() < 4 * (tag.width * tag.height) {
            Err(Error::SizeMismatch)
        } else {
            Ok(rgb32_pixels(decoded, tag.version, (tag.width * tag.height) as nat))
        }
    } else if supported && tag.format == BitmapFormat::ColorMap8 {
        if decoded.len() < colormap_len(tag.version, tag.num_colors, tag.width, tag.height) {
            Err(Error::SizeMismatch)
        } else {
            Ok(colormap_rows(decoded, tag.version, tag.num_colors, tag.width, tag.height as nat))
        }
    } else {
        Err(Error::Unimplemented)
    }
}

/// The RGBA bytes of a lossless bitmap; inflating comes first.
pub open spec fn define_bits_lossless(tag: DefineBitsLossless) -> Result<Seq<u8>, Error> {
    match zlib_inflated(tag.data@) {
        None => Err(Error::InflateError),
        Some(decoded) => lossless_rgba(tag, decoded),
    }
}

proof fn lemma_rgb32_len(decoded: Seq<u8>, version: u8, n: nat)
    ensures
        rgb32_pixels(decoded, version, n).len() == 4 * n,
    decreases n,
{
    if n > 0 {
        lemma_rgb32_len(decoded, version, (n - 1) as nat);
    }
}

proof fn lemma_colormap_row_len(
    decoded: Seq<u8>,
    palette: Seq<Color>,
    version: u8,
    row_start: int,
    cols: nat,
)
    ensures
        colormap_row(decoded, palette, version, row_start, cols).len() == 4 * cols,
    decreases cols,
{
    if cols > 0 {
        lemma_colormap_row_len(decoded, palette, version, row_start, (cols - 1) as nat);
    }
}

proof fn lemma_colormap_rows_len(
    decoded: Seq<u8>,
    version: u8,
    num_colors: u8,
    width: u16,
    rows: nat,
)
    ensures
        colormap_rows(decoded, version, num_colors, width, rows).len() == 4 * (width * rows),
    decreases rows,
{
    if rows > 0 {
        lemma_colormap_rows_len(decoded, version, num_colors, width, (rows - 1) as nat);
        lemma_colormap_row_len(
            decoded,
            palette_of(decoded, version, num_colors),
            version,
            indices_start(version, num_colors) + (rows - 1) * padded_width(width),
            width as nat,
        );
        let prev = colormap_rows(decoded, version, num_colors, width, (rows - 1) as nat);
        let row = colormap_row(
            decoded,
            palette_of(decoded, version, num_colors),
            version,
            indices_start(version, num_colors) + (rows - 1) * padded_width(width),
            width as nat,
        );
        assert(colormap_rows(decoded, version, num_colors, width, rows) == prev + row);
        assert(4 * (width * (rows - 1)) + 4 * width == 4 * (width * rows)) by (nonlinear_arith);
    } else {
        assert(width * rows == 0) by (nonlinear_arith)
            requires
                rows == 0,
        ;
    }
}

/// A decoded lossless bitmap holds four bytes for each of its
/// `width * height` pixels.
pub proof fn lemma_lossless_len(tag: DefineBitsLossless, decoded: Seq<u8>)
    ensures
        lossless_rgba(tag, decoded) matches Ok(v) ==> v.len() == 4 * (tag.width * tag.height),
{
    assert(tag.width * tag.height >= 0) by (nonlinear_arith);
    lemma_rgb32_len(decoded, tag.version, (tag.width * tag.height) as nat);
    lemma_colormap_rows_len(decoded, tag.version, tag.num_colors, tag.width, tag.height as nat);
    assert(rgb32_pixels(decoded, tag.version, (tag.width * tag.height) as nat).len() == 4 * (
    tag.width * tag.height));
    assert(colormap_rows(decoded, tag.version, tag.num_colors, tag.width, tag.height as nat).len()
        == 4 * (tag.width * tag.height));
}

proof fn lemma_row_pixel(
    decoded: Seq<u8>,
    palette: Seq<Color>,
    version: u8,
    row_start: int,
    cols: nat,
    col: nat,
)
    requires
        col < cols,
    ensures
        colormap_row(decoded, palette, version, row_start, cols).subrange(
            4 * (col as int),
            4 * (col as int) + 4,
        ) == color_bytes(lookup_color(palette, version, decoded[row_start + col])),
    decreases cols,
{
    let prev = colormap_row(decoded, palette, version, row_start, (cols - 1) as nat);
    lemma_colormap_row_len(decoded, palette, version, row_start, (cols - 1) as nat);
    if col + 1 < cols {
        lemma_row_pixel(decoded, palette, version, row_start, (cols - 1) as nat, col);
        assert(colormap_row(decoded, palette, version, row_start, cols).subrange(
            4 * (col as int),
            4 * (col as int) + 4,
        ) =~= prev.subrange(4 * (col as int), 4 * (col as int) + 4));
    } else {
        assert(colormap_row(decoded, palette, version, row_start, cols).subrange(
            4 * (col as int),
            4 * (col as int) + 4,
        ) =~= color_bytes(lookup_color(palette, version, decoded[row_start + col])));
    }
}

proof fn lemma_rows_pixel(
    decoded: Seq<u8>,
    version: u8,
    num_colors: u8,
    width: u16,
    rows: nat,
    row: nat,
    col: nat,
)
    requires
        row < rows,
        col < width,
    ensures
        colormap_rows(decoded, version, num_colors, width, rows).subrange(
            4 * (row * width + col) as int,
            4 * (row * width + col) as int + 4,
        ) == color_bytes(
            lookup_color(
                palette_of(decoded, version, num_colors),
                version,
                decoded[indices_start(version, num_colors) + row * padded_width(width) + col],
            ),
        ),
    decreases rows,
{
    let palette = palette_of(decoded, version, num_colors);
    let prev = colormap_rows(decoded, version, num_colors, width, (rows - 1) as nat);
    let row_start = indices_start(version, num_colors) + (rows - 1) * padded_width(width);
    let last = colormap_row(decoded, palette, version, row_start, width as nat);
    lemma_colormap_rows_len(decoded, version, num_colors, width, (rows - 1) as nat);
    let at = 4 * (row * width + col) as int;
    assert(colormap_rows(decoded, version, num_colors, width, rows) == prev + last);
    if row + 1 < rows {
        lemma_rows_pixel(decoded, version, num_colors, width, (rows - 1) as nat, row, col);
        assert(at + 4 <= 4 * (width * (rows - 1))) by (nonlinear_arith)
            requires
                at == 4 * (row * width + col),
                row + 1 < rows,
                col < width,
        ;
        assert((prev + last).subrange(at, at + 4) =~= prev.subrange(at, at + 4));
    } else {
        lemma_row_pixel(decoded, palette, version, row_start, width as nat, col);
        lemma_colormap_row_len(decoded, palette, version, row_start, width as nat);
        assert(at == 4 * (width * (rows - 1)) + 4 * col) by (nonlinear_arith)
            requires
                at == 4 * (row * width + col),
                row + 1 == rows,
        ;
        assert((prev + last).subrange(at, at + 4) =~= last.subrange(
            4 * (col as int),
            4 * (col as int) + 4,
        ));
    }
}

/// Pixel (`row`, `col`) of a decoded palettized bitmap is the palette entry
/// that its index byte names. An index past the end of the palette gives
/// opaque black in version 1 and transparent black in version 2.
pub proof fn lemma_colormap_pixel(tag: DefineBitsLossless, decoded: Seq<u8>, row: nat, col: nat)
    requires
        tag.version == 1 || tag.version == 2,
        tag.format == BitmapFormat::ColorMap8,
        row < tag.height,
        col < tag.width,
        decoded.len() >= colormap_len(tag.version, tag.num_colors, tag.width, tag.height),
    ensures
        ({
            let index = decoded[indices_start(tag.version, tag.num_colors) + row * padded_width(
                tag.width,
            ) + col];
            let pixel = lossless_rgba(tag, decoded)->Ok_0.subrange(
                4 * (row * tag.width + col) as int,
                4 * (row * tag.width + col) as int + 4,
            );
            &&& lossless_rgba(tag, decoded) is Ok
            &&& index <= tag.num_colors ==> pixel == color_bytes(
                palette_entry(decoded, tag.version, index as int),
            )
            &&& index > tag.num_colors && tag.version == 1 ==> pixel == seq![0u8, 0u8, 0u8, 255u8]
            &&& index > tag.num_colors && tag.version == 2 ==> pixel == seq![0u8, 0u8, 0u8, 0u8]
        }),
{
    lemma_rows_pixel(decoded, tag.version, tag.num_colors, tag.width, tag.height as nat, row, col);
}

fn rgb32_to_rgba(decoded: &[u8], version: u8, n: usize) -> (r: Vec<u8>)
    requires
        4 * n <= decoded@.len(),
    ensures
        r@ == rgb32_pixels(decoded@, version, n as nat),
{
    let len = decoded.len();
    let mut out: Vec<u8> = Vec::new();
    let mut i: usize = 0;
    while i < n
        invariant
            i <= n,
            4 * n <= decoded@.len(),
            len == decoded@.len(),
            out@ == rgb32_pixels(decoded@, version, i as nat),
        decreases n - i,
    {
        let o = 4 * i;
        let alpha = if version == 1 {
            0xFFu8
        } else {
            decoded[o]
        };
        out.push(decoded[o + 1]);
        out.push(decoded[o + 2]);
        out.push(decoded[o + 3]);
        out.push(alpha);
        assert(out@ =~= rgb32_pixels(decoded@, version, (i + 1) as nat));
        i = i + 1;
    }
    out
}

fn read_palette(decoded: &[u8], version: u8, num_colors: u8) -> (p: Vec<Color>)
    requires
        version == 1 || version == 2,
        decoded@.len() >= indices_start(version, num_colors),
    ensures
        p@ == palette_of(decoded@, version, num_colors),
{
    let count: usize = num_colors as usize + 1;
    let mut palette: Vec<Color> = Vec::new();
    let mut i: usize = 0;
    while i < count
        invariant
            i <= count,
            count == num_colors + 1,
            version == 1 || version == 2,
            decoded@.len() >= indices_start(version, num_colors),
            palette@ =~= Seq::new(i as nat, |k: int| palette_entry(decoded@, version, k)),
        decreases count - i,
    {
        let color = if version == 1 {
            Color { r: decoded[3 * i], g: decoded[3 * i + 1], b: decoded[3 * i + 2], a: 255 }
        } else {
            Color {
                r: decoded[4 * i],
                g: decoded[4 * i + 1],
                b: decoded[4 * i + 2],
                a: decoded[4 * i + 3],
            }
        };
        palette.push(color);
        i = i + 1;
    }
    palette
}

fn colormap_to_rgba(decoded: &[u8], version: u8, num_colors: u8, width: u16, height: u16) -> (r:
    Vec<u8>)
    requires
        version == 1 || version == 2,
        decoded@.len() >= colormap_len(version, num_colors, width, height),
    ensures
        r@ == colormap_rows(decoded@, version, num_colors, width, height as nat),
{
    let len = decoded.len();
    let palette = read_palette(decoded, version, num_colors);
    let w = width as u32;
    let sum: u32 = w + 0b11;
    let rounded: u32 = sum & !0b11;
    assert(rounded == sum / 4 * 4) by (bit_vector)
        requires
            rounded == sum & !0b11u32,
    ;
    let padded = rounded as usize;
    let entry_len: usize = if version == 1 {
        3
    } else {
        4
    };
    let start: usize = (num_colors as usize + 1) * entry_len;
    let mut out: Vec<u8> = Vec::new();
    let mut row_start: usize = start;
    let mut y: u16 = 0;
    while y < height
        invariant
            y <= height,
            version == 1 || version == 2,
            len == decoded@.len(),
            decoded@.len() >= colormap_len(version, num_colors, width, height),
            padded == padded_width(width),
            start == indices_start(version, num_colors),
            palette@ == palette_of(decoded@, version, num_colors),
            y < height ==> row_start == start + y * padded,
            out@ == colormap_rows(decoded@, version, num_colors, width, y as nat),
        decreases height - y,
    {
        assert(y * padded <= (height - 1) * padded) by (nonlinear_arith)
            requires
                y <= height - 1,
        ;
        if width == 0 {
            assert(padded == 0);
            assert(y * padded == 0) by (nonlinear_arith)
                requires
                    padded == 0,
            ;
        }
        assert(row_start + width <= decoded@.len());
        let ghost before = out@;
        let mut x: u16 = 0;
        while x < width
            invariant
                x <= width,
                y < height,
                len == decoded@.len(),
                row_start + width <= decoded@.len(),
                palette@ == palette_of(decoded@, version, num_colors),
                out@ == before + colormap_row(
                    decoded@,
                    palette@,
                    version,
                    row_start as int,
                    x as nat,
                ),
            decreases width - x,
        {
            let entry = decoded[row_start + x as usize];
            let color = if (entry as usize) < palette.len() {
                palette[entry as usize]
            } else if version == 1 {
                Color { r: 0, g: 0, b: 0, a: 255 }
            } else {
                Color { r: 0, g: 0, b: 0, a: 0 }
            };
            out.push(color.r);
            out.push(color.g);
            out.push(color.b);
            out.push(color.a);
            assert(out@ =~= before + colormap_row(
                decoded@,
                palette@,
                version,
                row_start as int,
                (x + 1) as nat,
            ));
            x = x + 1;
        }
        assert(out@ =~= colormap_rows(decoded@, version, num_colors, width, (y + 1) as nat));
        y = y + 1;
        if y < height {
            assert((y - 1) * padded + padded == y * padded) by (nonlinear_arith);
            assert(y * padded <= (height - 1) * padded) by (nonlinear_arith)
                requires
                    y <= height - 1,
            ;
            row_start = row_start + padded;
        }
    }
    out
}

/// Converts the inflated pixel data of a lossless bitmap to RGBA: 32-bit
/// pixels are reordered, palettized ones are looked up with rows padded to
/// 4 bytes. Fails with `SizeMismatch` when the data is too short for the
/// declared layout, and with `Unimplemented` for 15-bit bitmaps and for
/// versions other than 1 and 2.
pub fn lossless_pixels_to_rgba(swf_tag: &DefineBitsLossless, decoded: &[u8]) -> (r: Result<
    Vec<u8>,
    Error,
>)
    ensures
        r matches Ok(v) ==> lossless_rgba(*swf_tag, decoded@) == Ok::<Seq<u8>, Error>(v@),
        r matches Err(e) ==> lossless_rgba(*swf_tag, decoded@) == Err::<Seq<u8>, Error>(e),
        r matches Ok(v) ==> v@.len() == 4 * (swf_tag.width * swf_tag.height),
{
    proof {
        lemma_lossless_len(*swf_tag, decoded@);
    }
    let version = swf_tag.version;
    let width = swf_tag.width;
    let height = swf_tag.height;
    assert((width as u64) * (height as u64) <= 0xffff * 0xffff) by (nonlinear_arith)
        requires
            width <= 0xffff,
            height <= 0xffff,
    ;
    let pixels: u64 = (width as u64) * (height as u64);
    let supported = version == 1 || version == 2;
    match swf_tag.format {
        BitmapFormat::Rgb32 => {
            if !supported {
                return Err(Error::Unimplemented);
            }
            if (decoded.len() as u64) < 4 * pixels {
                return Err(Error::SizeMismatch);
            }
            Ok(rgb32_to_rgba(decoded, version, pixels as usize))
        },
        BitmapFormat::ColorMap8 => {
            if !supported {
                return Err(Error::Unimplemented);
            }
            let entry_len: u64 = if version == 1 {
                3
            } else {
                4
            };
            let padded: u64 = ((width as u64) + 3) / 4 * 4;
            let mut needed: u64 = (swf_tag.num_colors as u64 + 1) * entry_len;
            if width > 0 && height > 0 {
                assert(padded <= 0x10000);
                assert(((height - 1) as u64) * padded <= 0xffff * 0x10000) by (nonlinear_arith)
                    requires
                        1 <= height <= 0xffff,
                        padded <= 0x10000,
                ;
                needed = needed + ((height - 1) as u64) * padded + (width as u64);
            }
            if (decoded.len() as u64) < needed {
                return Err(Error::SizeMismatch);
            }
            Ok(colormap_to_rgba(decoded, version, swf_tag.num_colors, width, height))
        },
        BitmapFormat::Rgb15 => Err(Error::Unimplemented),
    }
}

/// Decodes a lossless bitmap to RGBA. Fails with `InflateError` when the
/// pixel data does not inflate, before looking at the format; otherwise as
/// `lossless_pixels_to_rgba` does on the inflated data.
pub fn define_bits_lossless_to_rgba(swf_tag: &DefineBitsLossless) -> (r: Result<Vec<u8>, Error>)
    ensures
        r matches Ok(v) ==> define_bits_lossless(*swf_tag) == Ok::<Seq<u8>, Error>(v@),
        r matches Err(e) ==> define_bits_lossless(*swf_tag) == Err::<Seq<u8>, Error>(e),
        r matches Ok(v) ==> v@.len() == 4 * (swf_tag.width * swf_tag.height),
{
    let decoded = match inflate(swf_tag.data.as_slice()) {
        Some(decoded) => decoded,
        None => return Err(Error::InflateError),
    };
    lossless_pixels_to_rgba(swf_tag, decoded.as_slice())
}

} // verus!
