//! Screenshots of the view: cropping, clearing the background, and PNG.

use vstd::prelude::*;

verus! {

/// Why an image has no such part.
#[derive(Clone, Copy, Debug, PartialEq, Eq, Structural)]
pub enum CropError {
    Overflow,
    Mismatch,
}

impl CropError {
    pub open spec fn text(self) -> Seq<char> {
        match self {
            CropError::Overflow => "Screenshot dimensions overflow"@,
            CropError::Mismatch => "Screenshot dimensions do not match the viewport"@,
        }
    }

    pub fn message(self) -> (r: &'static str)
        ensures
            r@ == self.text(),
    {
        match self {
            CropError::Overflow => "Screenshot dimensions overflow",
            CropError::Mismatch => "Screenshot dimensions do not match the viewport",
        }
    }
}

/// The part of one row of an image.
pub open spec fn row_part(source: Seq<u8>, source_width: int, x: int, row: int, width: int) -> Seq<
    u8,
> {
    let start = (row * source_width + x) * 4;
    source.subrange(start, start + width * 4)
}

/// The parts of `height` rows of an image from row `y` on.
pub open spec fn rows_part(
    source: Seq<u8>,
    source_width: int,
    x: int,
    y: int,
    width: int,
    height: nat,
) -> Seq<u8>
    decreases height,
{
    if height == 0 {
        Seq::empty()
    } else {
        rows_part(source, source_width, x, y, width, (height - 1) as nat) + row_part(
            source,
            source_width,
            x,
            y + height - 1,
            width,
        )
    }
}

/// The image has as many bytes as its size asks for, and the part lies in it.
pub open spec fn has_part(
    len: int,
    source_width: int,
    source_height: int,
    x: int,
    y: int,
    width: int,
    height: int,
) -> bool {
    len == source_width * source_height * 4 && x + width <= source_width && y + height
        <= source_height
}

proof fn lemma_row_in_image(
    source_width: int,
    source_height: int,
    x: int,
    row: int,
    width: int,
)
    requires
        0 <= x,
        0 <= width,
        x + width <= source_width,
        0 <= row < source_height,
    ensures
        0 <= row * source_width,
        0 <= (row * source_width + x) * 4,
        (row * source_width + x) * 4 + width * 4 <= source_width * source_height * 4,
{
    assert(0 <= row * source_width) by (nonlinear_arith)
        requires
            0 <= row,
            0 <= source_width,
    ;
    assert(row * source_width + source_width <= source_width * source_height) by (nonlinear_arith)
        requires
            0 <= row < source_height,
            0 <= source_width,
    ;
}

proof fn lemma_rows_len(
    source: Seq<u8>,
    source_width: int,
    source_height: int,
    x: int,
    y: int,
    width: int,
    height: nat,
)
    requires
        source.len() == source_width * source_height * 4,
        0 <= x,
        0 <= width,
        x + width <= source_width,
        0 <= y,
        y + height <= source_height,
    ensures
        rows_part(source, source_width, x, y, width, height).len() == width * height * 4,
    decreases height,
{
    if height > 0 {
        lemma_rows_len(source, source_width, source_height, x, y, width, (height - 1) as nat);
        lemma_row_in_image(source_width, source_height, x, y + height - 1, width);
        assert(width * (height - 1) * 4 + width * 4 == width * height * 4) by (nonlinear_arith);
    } else {
        assert(width * height * 4 == 0) by (nonlinear_arith)
            requires
                height == 0,
        ;
    }
}

/// A part of an image of four bytes per pixel, row by row.
pub fn crop_rgba8(
    source: &[u8],
    source_width: usize,
    source_height: usize,
    x: usize,
    y: usize,
    width: usize,
    height: usize,
) -> (r: Result<Vec<u8>, CropError>)
    requires
        source_width > 0 || !has_part(
            source@.len() as int,
            source_width as int,
            source_height as int,
            x as int,
            y as int,
            width as int,
            height as int,
        ),
    ensures
        match r {
            Ok(part) => {
                &&& has_part(
                    source@.len() as int,
                    source_width as int,
                    source_height as int,
                    x as int,
                    y as int,
                    width as int,
                    height as int,
                )
                &&& part@ == rows_part(
                    source@,
                    source_width as int,
                    x as int,
                    y as int,
                    width as int,
                    height as nat,
                )
                &&& part@.len() == width * height * 4
            },
            Err(CropError::Overflow) => source_width * source_height * 4 > usize::MAX,
            Err(CropError::Mismatch) => source_width * source_height * 4 <= usize::MAX && !has_part(
                source@.len() as int,
                source_width as int,
                source_height as int,
                x as int,
                y as int,
                width as int,
                height as int,
            ),
        },
{
    let pixels: usize = match source_width.checked_mul(source_height) {
        Some(n) => n,
        None => {
            assert(source_width * source_height * 4 > usize::MAX);
            return Err(CropError::Overflow);
        },
    };
    let source_len: usize = match pixels.checked_mul(4) {
        Some(n) => n,
        None => {
            return Err(CropError::Overflow);
        },
    };
    if source.len() != source_len || x > source_width || width > source_width - x || y
        > source_height || height > source_height - y {
        return Err(CropError::Mismatch);
    }
    let mut out: Vec<u8> = Vec::new();
    let mut row: usize = 0;
    while row < height
        invariant
            source_len == source@.len(),
            source_len == source_width * source_height * 4,
            x + width <= source_width,
            y + height <= source_height,
            row <= height,
            out@ == rows_part(
                source@,
                source_width as int,
                x as int,
                y as int,
                width as int,
                row as nat,
            ),
        decreases height - row,
    {
        proof {
            lemma_row_in_image(
                source_width as int,
                source_height as int,
                x as int,
                y + row,
                width as int,
            );
        }
        let start: usize = ((y + row) * source_width + x) * 4;
        let ghost before = out@;
        let mut i: usize = 0;
        while i < width * 4
            invariant
                start + width * 4 <= source_len,
                source_len == source@.len(),
                i <= width * 4,
                out@ == before + source@.subrange(start as int, start + i),
            decreases width * 4 - i,
        {
            out.push(source[start + i]);
            assert(out@ =~= before + source@.subrange(start as int, start + i + 1));
            i += 1;
        }
        row += 1;
    }
    proof {
        lemma_rows_len(
            source@,
            source_width as int,
            source_height as int,
            x as int,
            y as int,
            width as int,
            height as nat,
        );
    }
    Ok(out)
}

proof fn lemma_first_rows(source: Seq<u8>, width: int, height: nat)
    requires
        width >= 0,
        width * height * 4 <= source.len(),
    ensures
        rows_part(source, width, 0, 0, width, height) == source.take(width * height * 4),
    decreases height,
{
    if height == 0 {
        assert(width * height * 4 == 0) by (nonlinear_arith)
            requires
                height == 0,
        ;
        assert(source.take(0) =~= Seq::empty());
    } else {
        let fewer = (height - 1) as nat;
        assert(width * height * 4 == width * fewer * 4 + width * 4) by (nonlinear_arith)
            requires
                height == fewer + 1,
        ;
        assert(0 <= width * fewer) by (nonlinear_arith)
            requires
                0 <= width,
                0 <= fewer,
        ;
        assert((0 + height - 1) * width == width * fewer) by (nonlinear_arith)
            requires
                height == fewer + 1,
        ;
        lemma_first_rows(source, width, fewer);
        assert(source.take(width * height * 4) =~= source.take(width * fewer * 4)
            + source.subrange(width * fewer * 4, width * height * 4));
    }
}

/// The part of an image that covers it is the image.
pub proof fn law_crop_of_all_is_all(source: Seq<u8>, width: int, height: nat)
    requires
        width >= 0,
        source.len() == width * height * 4,
    ensures
        rows_part(source, width, 0, 0, width, height) == source,
{
    lemma_first_rows(source, width, height);
    assert(source.take(source.len() as int) =~= source);
}

/// Whether two values differ by at most one.
pub open spec fn is_near(a: u8, b: u8) -> bool {
    a - b <= 1 && b - a <= 1
}

/// The pixel that starts at `p` is as good as the background.
pub open spec fn is_background(pixels: Seq<u8>, p: int, background: Seq<u8>) -> bool {
    is_near(pixels[p], background[0]) && is_near(pixels[p + 1], background[1]) && is_near(
        pixels[p + 2],
        background[2],
    )
}

/// The image with the alpha of the background taken out.
pub open spec fn cleared(pixels: Seq<u8>, background: Seq<u8>) -> Seq<u8> {
    Seq::new(
        pixels.len(),
        |i: int|
            if i % 4 == 3 && is_background(pixels, i - 3, background) {
                0u8
            } else {
                pixels[i]
            },
    )
}

fn near(a: u8, b: u8) -> (r: bool)
    ensures
        r == is_near(a, b),
{
    if a < b {
        b - a <= 1
    } else {
        a - b <= 1
    }
}

/// Makes the pixels transparent that are as good as the background.
pub fn make_background_transparent(pixels: &mut Vec<u8>, background: [u8; 3])
    ensures
        final(pixels)@ == cleared(old(pixels)@, background@),
{
    let ghost given = pixels@;
    let mut p: usize = 0;
    while p < pixels.len() && pixels.len() - p >= 4
        invariant
            p <= pixels.len(),
            p % 4 == 0,
            pixels@.len() == given.len(),
            forall|i: int| 0 <= i < p ==> #[trigger] pixels@[i] == cleared(given, background@)[i],
            forall|i: int| p <= i < given.len() ==> #[trigger] pixels@[i] == given[i],
        decreases pixels.len() - p,
    {
        let ghost before = pixels@;
        if near(pixels[p], background[0]) && near(pixels[p + 1], background[1]) && near(
            pixels[p + 2],
            background[2],
        ) {
            pixels.set(p + 3, 0);
        }
        proof {
            let all = cleared(given, background@);
            assert(before[p as int] == given[p as int]);
            assert(before[p + 1] == given[p + 1]);
            assert(before[p + 2] == given[p + 2]);
            assert(before[p + 3] == given[p + 3]);
            assert(all[p as int] == given[p as int]);
            assert((p + 1) % 4 == 1 && (p + 2) % 4 == 2 && (p + 3) % 4 == 3);
            assert(all[p + 1] == given[p + 1]);
            assert(all[p + 2] == given[p + 2]);
            assert(pixels@[p + 3] == all[p + 3]);
            assert forall|i: int| 0 <= i < p + 4 implies #[trigger] pixels@[i] == all[i] by {
                if i < p {
                    assert(before[i] == all[i]);
                }
            }
        }
        p += 4;
    }
    assert forall|i: int| 0 <= i < given.len() implies #[trigger] pixels@[i] == cleared(
        given,
        background@,
    )[i] by {
        if i >= p {
            assert(i % 4 != 3);
        }
    }
    assert(pixels@ =~= cleared(given, background@));
}

/// Clearing the background twice is the same as clearing it once.
pub proof fn law_cleared_once(pixels: Seq<u8>, background: Seq<u8>)
    ensures
        cleared(cleared(pixels, background), background) == cleared(pixels, background),
{
    let once = cleared(pixels, background);
    assert forall|i: int| 0 <= i < once.len() implies cleared(once, background)[i] == once[i] by {
        if i % 4 == 3 {
            assert(once[i - 3] == pixels[i - 3]);
            assert(once[i - 2] == pixels[i - 2]);
            assert(once[i - 1] == pixels[i - 1]);
        }
    }
    assert(cleared(once, background) =~= once);
}

/// The image with red and blue exchanged.
pub open spec fn exchanged(pixels: Seq<u8>) -> Seq<u8> {
    Seq::new(
        pixels.len(),
        |i: int|
            if i % 4 == 0 && i + 3 < pixels.len() {
                pixels[i + 2]
            } else if i % 4 == 2 && i + 1 < pixels.len() {
                pixels[i - 2]
            } else {
                pixels[i]
            },
    )
}

/// Exchanges red and blue in each pixel.
pub fn exchange_red_and_blue(pixels: &mut Vec<u8>)
    ensures
        final(pixels)@ == exchanged(old(pixels)@),
{
    let ghost given = pixels@;
    let mut p: usize = 0;
    while p < pixels.len() && pixels.len() - p >= 4
        invariant
            p <= pixels.len(),
            p % 4 == 0,
            pixels@.len() == given.len(),
            forall|i: int| 0 <= i < p ==> #[trigger] pixels@[i] == exchanged(given)[i],
            forall|i: int| p <= i < given.len() ==> #[trigger] pixels@[i] == given[i],
        decreases pixels.len() - p,
    {
        let first: u8 = pixels[p];
        let third: u8 = pixels[p + 2];
        pixels.set(p, third);
        pixels.set(p + 2, first);
        p += 4;
    }
    assert(pixels@ =~= exchanged(given));
}

/// Exchanging red and blue twice brings the image back.
pub proof fn law_exchange_undoes_itself(pixels: Seq<u8>)
    ensures
        exchanged(exchanged(pixels)) == pixels,
{
    let once = exchanged(pixels);
    assert forall|i: int| 0 <= i < pixels.len() implies exchanged(once)[i] == pixels[i] by {
        if i % 4 == 0 && i + 3 < pixels.len() {
            assert(once[i + 2] == pixels[i]);
        } else if i % 4 == 2 && i + 1 < pixels.len() {
            assert(once[i - 2] == pixels[i]);
        }
    }
    assert(exchanged(once) =~= pixels);
}

/// Why an image could not be made a PNG.
pub enum PngFailure {
    /// Its header could not be written.
    Header(String),
    /// Its pixels could not be encoded.
    Data(String),
}

pub ghost enum PngModel {
    Bytes(Seq<u8>),
    Header(Seq<char>),
    Data(Seq<char>),
}

pub open spec fn png_model(r: Result<Vec<u8>, PngFailure>) -> PngModel {
    match r {
        Ok(bytes) => PngModel::Bytes(bytes@),
        Err(PngFailure::Header(text)) => PngModel::Header(text@),
        Err(PngFailure::Data(text)) => PngModel::Data(text@),
    }
}

/// What `png::Encoder` makes of pixels with red, green, blue and alpha of
/// eight bits, or how it fails.
pub uninterp spec fn encoded_png(pixels: Seq<u8>, width: u32, height: u32) -> PngModel;

/// `png::Encoder` with red, green, blue and alpha of eight bits, from the
/// header to the end of the file. An image without width or height is refused
/// with the header, and no other is.
#[verifier::external_body]
fn encode_png(pixels: &[u8], width: u32, height: u32) -> (r: Result<Vec<u8>, PngFailure>)
    requires
        pixels@.len() == width * height * 4,
    ensures
        png_model(r) == encoded_png(pixels@, width, height),
        png_model(r) is Header == (width == 0 || height == 0),
{
    let mut bytes = Vec::new();
    let mut encoder = png::Encoder::new(&mut bytes, width, height);
    encoder.set_color(png::ColorType::Rgba);
    encoder.set_depth(png::BitDepth::Eight);
    let mut writer = encoder.write_header().map_err(|e| PngFailure::Header(e.to_string()))?;
    writer.write_image_data(pixels).map_err(|e| PngFailure::Data(e.to_string()))?;
    drop(writer);
    Ok(bytes)
}

/// How the bytes of a pixel stand.
#[derive(Clone, Copy, Debug, PartialEq, Eq, Structural)]
pub enum PixelFormat {
    Rgba,
    Bgra,
}

/// The pixels of the view in a screenshot.
pub open spec fn view_pixels(part: Seq<u8>, format: PixelFormat, background: Seq<u8>) -> Seq<u8> {
    cleared(
        if format == PixelFormat::Bgra {
            exchanged(part)
        } else {
            part
        },
        background,
    )
}

/// The pixels of the view in a screenshot, with red first and transparent where
/// the background shows.
pub fn viewport_pixels(
    source: &[u8],
    source_width: usize,
    source_height: usize,
    x: usize,
    y: usize,
    width: usize,
    height: usize,
    format: PixelFormat,
    background: [u8; 3],
) -> (r: Result<Vec<u8>, CropError>)
    requires
        source_width > 0 || !has_part(
            source@.len() as int,
            source_width as int,
            source_height as int,
            x as int,
            y as int,
            width as int,
            height as int,
        ),
    ensures
        match r {
            Ok(pixels) => {
                &&& has_part(
                    source@.len() as int,
                    source_width as int,
                    source_height as int,
                    x as int,
                    y as int,
                    width as int,
                    height as int,
                )
                &&& pixels@ == view_pixels(
                    rows_part(
                        source@,
                        source_width as int,
                        x as int,
                        y as int,
                        width as int,
                        height as nat,
                    ),
                    format,
                    background@,
                )
                &&& pixels@.len() == width * height * 4
            },
            Err(CropError::Overflow) => source_width * source_height * 4 > usize::MAX,
            Err(CropError::Mismatch) => source_width * source_height * 4 <= usize::MAX && !has_part(
                source@.len() as int,
                source_width as int,
                source_height as int,
                x as int,
                y as int,
                width as int,
                height as int,
            ),
        },
{
    match crop_rgba8(source, source_width, source_height, x, y, width, height) {
        Err(e) => Err(e),
        Ok(part) => {
            let mut pixels = part;
            if format == PixelFormat::Bgra {
                exchange_red_and_blue(&mut pixels);
            }
            make_background_transparent(&mut pixels, background);
            Ok(pixels)
        },
    }
}

/// What a failure to make a PNG is told as.
pub open spec fn png_failure_text(m: PngModel) -> Seq<char> {
    match m {
        PngModel::Header(e) => "Could not write PNG header: "@ + e,
        PngModel::Data(e) => "Could not encode PNG: "@ + e,
        PngModel::Bytes(_) => Seq::empty(),
    }
}

/// The bytes of a PNG with the given pixels, or what is told of the failure.
pub fn png_bytes(pixels: &[u8], width: u32, height: u32) -> (r: Result<Vec<u8>, String>)
    requires
        pixels@.len() == width * height * 4,
    ensures
        match r {
            Ok(bytes) => encoded_png(pixels@, width, height) == PngModel::Bytes(bytes@),
            Err(text) => !(encoded_png(pixels@, width, height) is Bytes) && text@
                == png_failure_text(encoded_png(pixels@, width, height)),
        },
        width == 0 || height == 0 ==> r is Err,
{
    match encode_png(pixels, width, height) {
        Ok(bytes) => Ok(bytes),
        Err(failure) => Err(png_failure(failure)),
    }
}

/// What is told of a failure to make a PNG.
pub fn png_failure(failure: PngFailure) -> (r: String)
    ensures
        r@ == png_failure_text(png_model(Err(failure))),
{
    let mut text = String::new();
    match failure {
        PngFailure::Header(e) => {
            text.append("Could not write PNG header: ");
            text.append(e.as_str());
            assert(text@ =~= "Could not write PNG header: "@ + e@);
        },
        PngFailure::Data(e) => {
            text.append("Could not encode PNG: ");
            text.append(e.as_str());
            assert(text@ =~= "Could not encode PNG: "@ + e@);
        },
    }
    text
}

proof fn lemma_rows_part(
    source: Seq<u8>,
    source_width: int,
    x: int,
    y: int,
    width: int,
    height: nat,
    i: int,
)
    requires
        0 <= width,
        forall|row: int|
            0 <= row < height ==> (#[trigger] row_part(source, source_width, x, y + row, width)).len()
                == width * 4,
        0 <= i < height,
    ensures
        rows_part(source, source_width, x, y, width, height).len() == height * (width * 4),
        rows_part(source, source_width, x, y, width, height).subrange(
            i * (width * 4),
            (i + 1) * (width * 4),
        ) == row_part(source, source_width, x, y + i, width),
    decreases height,
{
    let n = (height - 1) as nat;
    let before = rows_part(source, source_width, x, y, width, n);
    let last = row_part(source, source_width, x, y + n, width);
    let all = rows_part(source, source_width, x, y, width, height);
    let w = width * 4;
    if n > 0 {
        lemma_rows_part(source, source_width, x, y, width, n, if i < n { i } else { 0 });
    } else {
        assert(before.len() == 0);
        assert(n * w == 0) by (nonlinear_arith)
            requires
                n == 0,
        ;
    }
    assert(last.len() == w);
    assert(height * w == n * w + w && (i + 1) * w == i * w + w) by (nonlinear_arith)
        requires
            height == n + 1,
    ;
    if i < n {
        assert(0 <= i * w && (i + 1) * w <= n * w) by (nonlinear_arith)
            requires
                0 <= i,
                i + 1 <= n,
                0 <= w,
        ;
        assert(all.subrange(i * w, (i + 1) * w) =~= before.subrange(i * w, (i + 1) * w));
    } else {
        assert(all.subrange(i * w, (i + 1) * w) =~= last);
    }
}

/// Each byte of each pixel of a part of an image is that of the pixel at the
/// same place of the image, as many columns and rows further as the part is.
pub proof fn law_part_keeps_pixels(
    source: Seq<u8>,
    source_width: int,
    source_height: int,
    x: int,
    y: int,
    width: int,
    height: nat,
    column: int,
    row: int,
    byte: int,
)
    requires
        has_part(source.len() as int, source_width, source_height, x, y, width, height as int),
        0 <= x,
        0 <= y,
        0 <= column < width,
        0 <= row < height,
        0 <= byte < 4,
    ensures
        rows_part(source, source_width, x, y, width, height)[(row * width + column) * 4 + byte]
            == source[((y + row) * source_width + (x + column)) * 4 + byte],
{
    assert forall|r: int| 0 <= r < height implies (#[trigger] row_part(
        source,
        source_width,
        x,
        y + r,
        width,
    )).len() == width * 4 by {
        lemma_row_in_image(source_width, source_height, x, y + r, width);
    }
    lemma_rows_part(source, source_width, x, y, width, height, row);
    lemma_row_in_image(source_width, source_height, x, y + row, width);
    let all = rows_part(source, source_width, x, y, width, height);
    let w = width * 4;
    let part = row_part(source, source_width, x, y + row, width);
    let at = column * 4 + byte;
    assert((row * width + column) * 4 + byte == row * w + at && (row + 1) * w == row * w + w
        && (row + 1) * w <= height * w && 0 <= row * w) by (nonlinear_arith)
        requires
            w == width * 4,
            at == column * 4 + byte,
            0 <= row,
            row + 1 <= height,
            0 <= width,
    ;
    assert(all.subrange(row * w, (row + 1) * w)[at] == part[at]);
    assert(all[row * w + at] == part[at]);
    assert(((y + row) * source_width + (x + column)) * 4 + byte == ((y + row) * source_width + x)
        * 4 + at) by (nonlinear_arith)
        requires
            at == column * 4 + byte,
    ;
}

/// In each pixel red and blue change places; green and alpha stay.
pub proof fn law_exchange_swaps_red_and_blue(pixels: Seq<u8>, p: int)
    requires
        0 <= p,
        4 * p + 3 < pixels.len(),
    ensures
        exchanged(pixels).len() == pixels.len(),
        exchanged(pixels)[4 * p] == pixels[4 * p + 2],
        exchanged(pixels)[4 * p + 1] == pixels[4 * p + 1],
        exchanged(pixels)[4 * p + 2] == pixels[4 * p],
        exchanged(pixels)[4 * p + 3] == pixels[4 * p + 3],
{
}

/// A pixel keeps its colour. It becomes transparent exactly where none of its
/// three colours is more than one step away from that of the background, and
/// keeps its alpha elsewhere.
pub proof fn law_background_becomes_transparent(pixels: Seq<u8>, background: Seq<u8>, p: int)
    requires
        0 <= p,
        4 * p + 3 < pixels.len(),
    ensures
        cleared(pixels, background).len() == pixels.len(),
        forall|k: int|
            0 <= k < 3 ==> #[trigger] cleared(pixels, background)[4 * p + k] == pixels[4 * p + k],
        cleared(pixels, background)[4 * p + 3] == (if (forall|k: int|
            0 <= k < 3 ==> -1 <= #[trigger] pixels[4 * p + k] - background[k] <= 1) {
            0
        } else {
            pixels[4 * p + 3]
        }),
{
    let near = forall|k: int| 0 <= k < 3 ==> -1 <= #[trigger] pixels[4 * p + k] - background[k] <= 1;
    if is_background(pixels, 4 * p, background) {
        assert forall|k: int| 0 <= k < 3 implies -1 <= #[trigger] pixels[4 * p + k] - background[k]
            <= 1 by {
        }
    } else if near {
        assert(-1 <= pixels[4 * p + 0] - background[0] <= 1);
        assert(-1 <= pixels[4 * p + 1] - background[1] <= 1);
        assert(-1 <= pixels[4 * p + 2] - background[2] <= 1);
    }
}

/// A pixel of the view has red first whatever the order of the image is, and is
/// transparent where the background shows.
pub proof fn law_view_has_red_first(
    part: Seq<u8>,
    format: PixelFormat,
    background: Seq<u8>,
    p: int,
)
    requires
        0 <= p,
        4 * p + 3 < part.len(),
    ensures
        ({
            let seen = view_pixels(part, format, background);
            let (red, blue) = if format == PixelFormat::Bgra {
                (part[4 * p + 2], part[4 * p])
            } else {
                (part[4 * p], part[4 * p + 2])
            };
            let green = part[4 * p + 1];
            &&& seen[4 * p] == red && seen[4 * p + 1] == green && seen[4 * p + 2] == blue
            &&& seen[4 * p + 3] == (if -1 <= red - background[0] <= 1 && -1 <= green - background[1]
                <= 1 && -1 <= blue - background[2] <= 1 {
                0
            } else {
                part[4 * p + 3]
            })
        }),
{
    law_exchange_swaps_red_and_blue(part, p);
}

} // verus!
