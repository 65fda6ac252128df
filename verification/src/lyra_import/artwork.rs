//! Covers and player backgrounds in the pixel format of the watch.
use vstd::prelude::*;
use vstd::slice::*;
use vstd::string::*;

use crate::text;

verus! {

pub const COVER_WIDTH: u32 = 180;

pub const COVER_HEIGHT: u32 = 180;

pub const COVER_CORNER_RADIUS: u32 = 24;

pub const BACKGROUND_WIDTH: u32 = 336;

pub const BACKGROUND_HEIGHT: u32 = 520;

pub const BACKGROUND_FADE_START: u32 = 480;

pub const BACKGROUND_FADE_SPAN: u32 = 40;

pub const LVGL_V9_FORMAT: &'static str = "lvgl-v9-argb8888-bin";

pub const COVER_BIN_BYTES: u64 = 129612;

pub const BACKGROUND_BIN_BYTES: u64 = 698892;

pub const MAX_SOURCE_BYTES: u64 = 4194304;

pub const MAX_SOURCE_DIMENSION: u32 = 2048;

pub const MAX_DECODE_ALLOC: u64 = 33554432;

/// The sides of the small image that is blurred.
pub const BLUR_WIDTH: u32 = 84;

pub const BLUR_HEIGHT: u32 = 120;

/// How far the blur reaches.
pub const BLUR_SIGMA: u8 = 8;

/// An image of four bytes per pixel: red, green, blue and alpha, row by row.
#[derive(Clone, Debug)]
pub struct RgbaImage {
    pub width: u32,
    pub height: u32,
    pub pixels: Vec<u8>,
}

impl RgbaImage {
    /// The bytes are those of as many pixels as the sides ask for.
    pub open spec fn wf(self) -> bool {
        self.pixels@.len() == self.width as int * self.height as int * 4
    }

    /// The sides are within what is decoded.
    pub open spec fn small(self) -> bool {
        0 < self.width <= MAX_SOURCE_DIMENSION && 0 < self.height <= MAX_SOURCE_DIMENSION
    }
}

// ---------------------------------------------------------------- decoding

/// The formats that covers are told apart by.
#[derive(Clone, Copy, Debug, PartialEq, Eq, Structural)]
pub enum SourceFormat {
    Jpeg,
    Png,
    Another,
}

/// The format that the `image` crate tells from the first bytes of a file.
pub uninterp spec fn guessed_format(start: Seq<u8>) -> Option<SourceFormat>;

/// Wrapper of `image::guess_format`: the format whose signature begins the
/// bytes, if any. The result depends on the bytes alone.
#[verifier::external_body]
fn guess_format(start: &[u8]) -> (r: Option<SourceFormat>)
    ensures
        r == guessed_format(start@),
{
    match image::guess_format(start) {
        Ok(image::ImageFormat::Jpeg) => Some(SourceFormat::Jpeg),
        Ok(image::ImageFormat::Png) => Some(SourceFormat::Png),
        Ok(_) => Some(SourceFormat::Another),
        Err(_) => None,
    }
}

/// Wrapper of `image::ImageFormat::from_extension`: the format that a file
/// extension, whatever its case, stands for. Which extensions stand for formats
/// other than JPEG and PNG is left unsaid.
#[verifier::external_body]
fn format_of_extension(ext: &str) -> (r: Option<SourceFormat>)
    ensures
        (r == Some(SourceFormat::Jpeg)) == (text::lowered(ext@) == "jpg"@ || text::lowered(ext@)
            == "jpeg"@ || text::lowered(ext@) == "jfif"@),
        (r == Some(SourceFormat::Png)) == (text::lowered(ext@) == "png"@ || text::lowered(ext@)
            == "apng"@),
{
    match image::ImageFormat::from_extension(ext) {
        Some(image::ImageFormat::Jpeg) => Some(SourceFormat::Jpeg),
        Some(image::ImageFormat::Png) => Some(SourceFormat::Png),
        Some(_) => Some(SourceFormat::Another),
        None => None,
    }
}

/// Whether the `image` crate may decode some bytes, as PNG or as JPEG and within
/// the given limits, to an image of some sides and RGBA pixels, or fail with some
/// message.
pub uninterp spec fn may_decode(
    bytes: Seq<u8>,
    png: bool,
    max_side: u32,
    max_alloc: u64,
    result: Result<(u32, u32, Seq<u8>), Seq<char>>,
) -> bool;

/// Wrapper of `image::ImageReader::decode` for an image in memory, read as the
/// given format and within the given limits, and of the conversion to RGBA: one
/// of the results that these arguments may have. An image comes with all its
/// bytes. Which pixels come out, and on which files decoding fails with which
/// message, is left unsaid: it rests on decoders that differ by machine.
#[verifier::external_body]
fn decode_pixels(bytes: &[u8], png: bool, max_side: u32, max_alloc: u64) -> (r: Result<
    RgbaImage,
    String,
>)
    ensures
        may_decode(bytes@, png, max_side, max_alloc, decoded_view(r)),
        r matches Ok(i) ==> i.wf(),
{
    let format = if png { image::ImageFormat::Png } else { image::ImageFormat::Jpeg };
    let mut reader = image::ImageReader::with_format(std::io::Cursor::new(bytes), format);
    let mut limits = image::Limits::default();
    limits.max_image_width = Some(max_side);
    limits.max_image_height = Some(max_side);
    limits.max_alloc = Some(max_alloc);
    reader.limits(limits);
    match reader.decode() {
        Ok(decoded) => {
            let rgba = decoded.to_rgba8();
            Ok(RgbaImage { width: rgba.width(), height: rgba.height(), pixels: rgba.into_raw() })
        }
        Err(error) => Err(error.to_string()),
    }
}

/// The images that were made from a cover.
pub struct PreparedArtwork {
    pub cover_path: String,
    pub cover_size: u64,
    pub background_path: Option<String>,
    pub background_size: Option<u64>,
}

/// Checks the size of a cover file before it is read.
pub fn check_source(is_file: bool, size: u64) -> (r: Result<(), String>)
    ensures
        match r {
            Ok(_) => is_file && 0 < size <= MAX_SOURCE_BYTES,
            Err(e) => !(is_file && 0 < size <= MAX_SOURCE_BYTES) && e@ == "封面为空或超过 4 MiB"@,
        },
{
    if !is_file || size == 0 || size > MAX_SOURCE_BYTES {
        Err("封面为空或超过 4 MiB".to_owned())
    } else {
        Ok(())
    }
}

/// The directory into which images are made.
pub fn unique_output_directory(prefix: &str, nonce: u128) -> (r: String)
    ensures
        r@ == "media/"@ + prefix@ + "-"@ + text::decimal(nonce as nat),
{
    let n = text::u128_text(nonce);
    let mut r = text::cat3("media/", prefix, "-");
    r.append(n.as_str());
    r
}

/// Checks the length of a cover that was written.
pub fn check_cover(size: u64) -> (r: Result<(), String>)
    ensures
        match r {
            Ok(_) => size == COVER_BIN_BYTES,
            Err(e) => size != COVER_BIN_BYTES && e@ == "封面 BIN 长度校验失败"@,
        },
{
    if size == COVER_BIN_BYTES {
        Ok(())
    } else {
        Err("封面 BIN 长度校验失败".to_owned())
    }
}

/// Puts the files that were written together. A cover of another length is
/// refused; a background that failed or has another length is left out.
pub fn assemble(
    cover_path: String,
    cover_size: u64,
    background: Option<(String, u64)>,
) -> (r: Result<PreparedArtwork, String>)
    ensures
        match r {
            Ok(p) => {
                &&& cover_size == COVER_BIN_BYTES
                &&& p.cover_path == cover_path
                &&& p.cover_size == cover_size
                &&& match background {
                    Some((path, size)) => if size == BACKGROUND_BIN_BYTES {
                        p.background_path == Some(path) && p.background_size == Some(size)
                    } else {
                        p.background_path is None && p.background_size is None
                    },
                    None => p.background_path is None && p.background_size is None,
                }
            },
            Err(e) => cover_size != COVER_BIN_BYTES && e@ == "封面 BIN 长度校验失败"@,
        },
{
    match check_cover(cover_size) {
        Ok(_) => {},
        Err(e) => return Err(e),
    }
    let (background_path, background_size) = match background {
        Some((path, size)) => if size == BACKGROUND_BIN_BYTES {
            (Some(path), Some(size))
        } else {
            (None, None)
        },
        None => (None, None),
    };
    Ok(PreparedArtwork { cover_path, cover_size, background_path, background_size })
}

/// The bytes by which a format is told.
pub open spec fn signature(file: Seq<u8>) -> Seq<u8> {
    if file.len() > 16 {
        file.take(16)
    } else {
        file
    }
}

/// The format in which a cover is read: what its bytes tell, or else its
/// extension.
pub fn choose_format(guessed: Option<SourceFormat>, named: Option<SourceFormat>) -> (r: Result<
    bool,
    String,
>)
    ensures
        ({
            let f = if guessed is Some {
                guessed
            } else {
                named
            };
            match r {
                Ok(png) => f == Some(
                    if png {
                        SourceFormat::Png
                    } else {
                        SourceFormat::Jpeg
                    },
                ),
                Err(e) => f != Some(SourceFormat::Png) && f != Some(SourceFormat::Jpeg) && e@
                    == "封面必须是 JPEG 或 PNG"@,
            }
        }),
{
    let f = match guessed {
        Some(f) => Some(f),
        None => named,
    };
    match f {
        Some(SourceFormat::Png) => Ok(true),
        Some(SourceFormat::Jpeg) => Ok(false),
        _ => Err("封面必须是 JPEG 或 PNG".to_owned()),
    }
}

/// What becomes of a decoded cover: it is taken where its sides are within the
/// limits.
pub open spec fn accepted(
    decoded: Result<RgbaImage, String>,
    r: Result<RgbaImage, String>,
) -> bool {
    match decoded {
        Ok(i) => if i.small() {
            r == Ok::<RgbaImage, String>(i)
        } else {
            r matches Err(e) && e@ == "封面分辨率超过 2048×2048"@
        },
        Err(m) => r matches Err(e) && e@ == "封面解码失败："@ + m@,
    }
}

/// Takes a decoded cover.
pub fn accept_decoded(decoded: Result<RgbaImage, String>) -> (r: Result<RgbaImage, String>)
    ensures
        accepted(decoded, r),
{
    match decoded {
        Ok(i) => if i.width == 0 || i.height == 0 || i.width > MAX_SOURCE_DIMENSION || i.height
            > MAX_SOURCE_DIMENSION {
            Err("封面分辨率超过 2048×2048".to_owned())
        } else {
            Ok(i)
        },
        Err(m) => Err(text::cat("封面解码失败：", m.as_str())),
    }
}

/// The format in which a cover is read, if it is one of the two: what its bytes
/// tell, or else its extension. It says whether that is PNG.
pub open spec fn read_as_png(file: Seq<u8>, ext: Seq<char>) -> Option<bool> {
    let e = text::lowered(ext);
    match guessed_format(signature(file)) {
        Some(SourceFormat::Png) => Some(true),
        Some(SourceFormat::Jpeg) => Some(false),
        Some(SourceFormat::Another) => None,
        None => if e == "png"@ || e == "apng"@ {
            Some(true)
        } else if e == "jpg"@ || e == "jpeg"@ || e == "jfif"@ {
            Some(false)
        } else {
            None
        },
    }
}

/// The value of a decoded image.
pub open spec fn decoded_view(d: Result<RgbaImage, String>) -> Result<
    (u32, u32, Seq<u8>),
    Seq<char>,
> {
    match d {
        Ok(i) => Ok((i.width, i.height, i.pixels@)),
        Err(e) => Err(e@),
    }
}

/// Whether a cover may be decoded to an image, or not be.
pub open spec fn decodes_to(file: Seq<u8>, png: bool, d: Result<RgbaImage, String>) -> bool {
    &&& may_decode(file, png, MAX_SOURCE_DIMENSION, MAX_DECODE_ALLOC, decoded_view(d))
    &&& d matches Ok(i) ==> i.wf()
}

/// Whether a cover may be taken as an image, or refused with a message.
pub open spec fn may_be_taken(file: Seq<u8>, ext: Seq<char>, r: Result<RgbaImage, String>) -> bool {
    match read_as_png(file, ext) {
        None => r matches Err(e) && e@ == "封面必须是 JPEG 或 PNG"@,
        Some(png) => if png {
            exists|d: Result<RgbaImage, String>| #[trigger]
                decodes_to(file, true, d) && accepted(d, r)
        } else {
            exists|d: Result<RgbaImage, String>| #[trigger]
                decodes_to(file, false, d) && accepted(d, r)
        },
    }
}

/// Decodes a cover. `extension` is that of its file.
pub fn decode(file: &[u8], extension: &str) -> (r: Result<RgbaImage, String>)
    ensures
        may_be_taken(file@, extension@, r),
{
    let head = if file.len() > 16 {
        let head = slice_subrange(file, 0, 16);
        assert(head@ =~= file@.take(16));
        head
    } else {
        file
    };
    let guessed = guess_format(head);
    let named = format_of_extension(extension);
    match choose_format(guessed, named) {
        Err(e) => {
            assert(read_as_png(file@, extension@) is None);
            Err(e)
        },
        Ok(png) => {
            assert(read_as_png(file@, extension@) == Some(png));
            let decoded = decode_pixels(file, png, MAX_SOURCE_DIMENSION, MAX_DECODE_ALLOC);
            assert(png ==> decodes_to(file@, true, decoded));
            assert(!png ==> decodes_to(file@, false, decoded));
            accept_decoded(decoded)
        },
    }
}

// ---------------------------------------------------------------- resampling

pub enum Filter {
    Lanczos3,
    Triangle,
}

/// Whether the `image` crate may resample the pixels of an image with some sides to
/// those of an image with other sides, under a filter.
pub uninterp spec fn may_resample(
    pixels: Seq<u8>,
    width: u32,
    height: u32,
    to_width: u32,
    to_height: u32,
    filter: Filter,
    result: Seq<u8>,
) -> bool;

/// Whether the `image` crate may blur the pixels of an image to others.
pub uninterp spec fn may_blur(
    pixels: Seq<u8>,
    width: u32,
    height: u32,
    sigma: u8,
    result: Seq<u8>,
) -> bool;

/// Wrapper of `image::imageops::resize`: an image with the given sides, one of
/// those that these arguments may give. Which pixels it has is left unsaid: they
/// come out of floating point arithmetic that differs by machine.
#[verifier::external_body]
fn resample(image: &RgbaImage, width: u32, height: u32, filter: Filter) -> (r: RgbaImage)
    requires
        image.wf(),
        image.small(),
        0 < width <= MAX_SOURCE_DIMENSION,
        0 < height <= MAX_SOURCE_DIMENSION,
    ensures
        r.wf(),
        r.width == width,
        r.height == height,
        may_resample(
            image.pixels@,
            image.width,
            image.height,
            width,
            height,
            filter,
            r.pixels@,
        ),
{
    let source = image::RgbaImage::from_raw(image.width, image.height, image.pixels.clone()).unwrap();
    let filter = match filter {
        Filter::Lanczos3 => image::imageops::FilterType::Lanczos3,
        Filter::Triangle => image::imageops::FilterType::Triangle,
    };
    let resized = image::imageops::resize(&source, width, height, filter);
    RgbaImage { width: resized.width(), height: resized.height(), pixels: resized.into_raw() }
}

/// Wrapper of `image::imageops::blur`: an image with the same sides, one of those
/// that these arguments may give. Which pixels it has is left unsaid: they come out
/// of floating point arithmetic that differs by machine.
#[verifier::external_body]
fn blur(image: &RgbaImage, sigma: u8) -> (r: RgbaImage)
    requires
        image.wf(),
        image.small(),
        sigma > 0,
    ensures
        r.wf(),
        r.width == image.width,
        r.height == image.height,
        may_blur(image.pixels@, image.width, image.height, sigma, r.pixels@),
{
    let source = image::RgbaImage::from_raw(image.width, image.height, image.pixels.clone()).unwrap();
    let blurred = image::imageops::blur(&source, sigma.into());
    RgbaImage { width: blurred.width(), height: blurred.height(), pixels: blurred.into_raw() }
}

// ---------------------------------------------------------------- cropping

proof fn lemma_inside(row: int, col: int, w: int, h: int)
    by (nonlinear_arith)
    requires
        0 <= row < h,
        0 <= col < w,
    ensures
        0 <= row * w,
        row * w + col < w * h,
{
}

/// The bytes of a part of an image, row by row.
pub open spec fn cropped(p: Seq<u8>, w: int, x: int, y: int, cw: int, ch: int) -> Seq<u8> {
    Seq::new(
        (cw * ch * 4) as nat,
        |k: int| p[((y + k / 4 / cw) * w + x + k / 4 % cw) * 4 + k % 4],
    )
}

/// Cuts a part out of an image.
pub fn crop(image: &RgbaImage, x: u32, y: u32, cw: u32, ch: u32) -> (r: RgbaImage)
    requires
        image.wf(),
        image.small(),
        0 < cw,
        0 < ch,
        x + cw <= image.width,
        y + ch <= image.height,
    ensures
        r.wf(),
        r.width == cw,
        r.height == ch,
        r.pixels@ == cropped(
            image.pixels@,
            image.width as int,
            x as int,
            y as int,
            cw as int,
            ch as int,
        ),
{
    let w: usize = image.width as usize;
    assert(cw * ch <= 4194304) by (nonlinear_arith)
        requires
            0 < cw <= 2048,
            0 < ch <= 2048,
    ;
    let count: usize = cw as usize * ch as usize;
    let mut out: Vec<u8> = Vec::new();
    let mut k: usize = 0;
    while k < count * 4
        invariant
            k <= count * 4,
            count <= 4194304,
            count == cw * ch,
            w == image.width,
            image.wf(),
            image.small(),
            0 < cw,
            0 < ch,
            x + cw <= image.width,
            y + ch <= image.height,
            out@.len() == k,
            forall|j: int|
                0 <= j < k ==> #[trigger] out@[j] == cropped(
                    image.pixels@,
                    image.width as int,
                    x as int,
                    y as int,
                    cw as int,
                    ch as int,
                )[j],
        decreases count * 4 - k,
    {
        let i: usize = k / 4;
        let row: usize = i / cw as usize;
        let col: usize = i % cw as usize;
        proof {
            assert(row < ch) by (nonlinear_arith)
                requires
                    row == i as int / cw as int,
                    i < cw * ch,
                    cw > 0,
            ;
            assert(col < cw) by (nonlinear_arith)
                requires
                    col == i as int % cw as int,
                    cw > 0,
            ;
            lemma_inside(y + row, x + col, image.width as int, image.height as int);
            assert((y + row) * w <= 4194304) by (nonlinear_arith)
                requires
                    0 <= y + row <= 2048,
                    0 <= w <= 2048,
            ;
        }
        let at: usize = (y as usize + row) * w + x as usize + col;
        out.push(image.pixels[at * 4 + k % 4]);
        k = k + 1;
    }
    assert(out@ =~= cropped(
        image.pixels@,
        image.width as int,
        x as int,
        y as int,
        cw as int,
        ch as int,
    ));
    RgbaImage { width: cw, height: ch, pixels: out }
}

/// The middle square of an image.
pub open spec fn square_part(i: RgbaImage) -> (int, int, int) {
    let side = if i.width < i.height {
        i.width as int
    } else {
        i.height as int
    };
    ((i.width - side) / 2, (i.height - side) / 2, side)
}

/// Cuts the middle square out of an image.
pub fn square_crop(image: &RgbaImage) -> (r: RgbaImage)
    requires
        image.wf(),
        image.small(),
    ensures
        r.wf(),
        r.small(),
        ({
            let (x, y, side) = square_part(*image);
            r.width == side && r.height == side && r.pixels@ == cropped(
                image.pixels@,
                image.width as int,
                x,
                y,
                side,
                side,
            )
        }),
{
    let side: u32 = if image.width < image.height {
        image.width
    } else {
        image.height
    };
    crop(image, (image.width - side) / 2, (image.height - side) / 2, side, side)
}

/// The cover of an image, before its corners are rounded.
pub fn square_cover(image: &RgbaImage) -> (r: RgbaImage)
    requires
        image.wf(),
        image.small(),
    ensures
        r.wf(),
        r.width == COVER_WIDTH,
        r.height == COVER_HEIGHT,
        ({
            let (x, y, side) = square_part(*image);
            may_resample(
                cropped(image.pixels@, image.width as int, x, y, side, side),
                side as u32,
                side as u32,
                COVER_WIDTH,
                COVER_HEIGHT,
                Filter::Lanczos3,
                r.pixels@,
            )
        }),
{
    let square = square_crop(image);
    resample(&square, COVER_WIDTH, COVER_HEIGHT, Filter::Lanczos3)
}

/// The sides of the largest part of an image that has the shape of a target.
pub open spec fn fill_part(sw: int, sh: int, tw: int, th: int) -> (int, int) {
    if sw * th > tw * sh {
        let w = sh * tw / th;
        (if w < 1 {
            1
        } else {
            w
        }, sh)
    } else {
        let h = sw * th / tw;
        (sw, if h < 1 {
            1
        } else {
            h
        })
    }
}

proof fn lemma_fill(sw: int, sh: int, tw: int, th: int)
    requires
        sw > 0,
        sh > 0,
        tw > 0,
        th > 0,
    ensures
        sw * th > tw * sh ==> 0 <= sh * tw / th < sw,
        sw * th <= tw * sh ==> 0 <= sw * th / tw <= sh,
{
    if sw * th > tw * sh {
        assert(0 <= sh * tw / th < sw) by (nonlinear_arith)
            requires
                sw > 0,
                sh > 0,
                tw > 0,
                th > 0,
                sw * th > tw * sh,
        ;
    } else {
        assert(0 <= sw * th / tw <= sh) by (nonlinear_arith)
            requires
                sw > 0,
                sh > 0,
                tw > 0,
                th > 0,
                sw * th <= tw * sh,
        ;
    }
}

/// The sides of the part of an image that fills a target.
pub fn aspect_fill_crop(sw: u32, sh: u32, tw: u32, th: u32) -> (r: Result<(u32, u32), String>)
    ensures
        match r {
            Ok((w, h)) => {
                &&& sw > 0 && sh > 0 && tw > 0 && th > 0
                &&& (w as int, h as int) == fill_part(sw as int, sh as int, tw as int, th as int)
                &&& 0 < w <= sw
                &&& 0 < h <= sh
            },
            Err(e) => !(sw > 0 && sh > 0 && tw > 0 && th > 0) && e@ == "封面尺寸无效"@,
        },
{
    if sw == 0 || sh == 0 || tw == 0 || th == 0 {
        return Err("封面尺寸无效".to_owned());
    }
    proof {
        lemma_fill(sw as int, sh as int, tw as int, th as int);
        assert(sw * th <= 0xffffffff * 0xffffffff && tw * sh <= 0xffffffff * 0xffffffff)
            by (nonlinear_arith)
            requires
                0 < sw <= 0xffffffff,
                0 < sh <= 0xffffffff,
                0 < tw <= 0xffffffff,
                0 < th <= 0xffffffff,
        ;
        assert(sh * tw == tw * sh) by (nonlinear_arith);
    }
    let wide: u64 = sw as u64 * th as u64;
    let tall: u64 = tw as u64 * sh as u64;
    if wide > tall {
        let w: u32 = (tall / th as u64) as u32;
        Ok((if w < 1 {
            1
        } else {
            w
        }, sh))
    } else {
        let h: u32 = (wide / tw as u64) as u32;
        Ok((sw, if h < 1 {
            1
        } else {
            h
        }))
    }
}

/// A part that fills a target is as wide or as high as the image, and, but for
/// rounding, has the shape of the target.
pub proof fn fill_keeps_the_shape(sw: int, sh: int, tw: int, th: int)
    requires
        sw > 0,
        sh > 0,
        tw > 0,
        th > 0,
    ensures
        ({
            let (w, h) = fill_part(sw, sh, tw, th);
            &&& 0 < w <= sw
            &&& 0 < h <= sh
            &&& w == sw || h == sh
            &&& sw * th > tw * sh ==> h == sh
            &&& sw * th > tw * sh && w > 1 ==> w * th <= tw * h < (w + 1) * th
            &&& sw * th <= tw * sh ==> w == sw
            &&& sw * th <= tw * sh && h > 1 ==> h * tw <= th * w < (h + 1) * tw
        }),
{
    lemma_fill(sw, sh, tw, th);
    let (w, h) = fill_part(sw, sh, tw, th);
    if sw * th > tw * sh {
        let q = sh * tw / th;
        assert(q * th <= tw * sh < (q + 1) * th) by (nonlinear_arith)
            requires
                q == sh * tw / th,
                th > 0,
        ;
    } else {
        let q = sw * th / tw;
        assert(q * tw <= th * sw < (q + 1) * tw) by (nonlinear_arith)
            requires
                q == sw * th / tw,
                tw > 0,
        ;
    }
}

// ---------------------------------------------------------------- background

/// The sum of one channel over the pixels from `a` up to `b`.
pub open spec fn channel_sum(p: Seq<u8>, c: int, a: int, b: int) -> nat
    decreases b - a,
{
    if b <= a {
        0
    } else {
        channel_sum(p, c, a, b - 1) + p[(b - 1) * 4 + c] as nat
    }
}

/// The mean of one channel over some pixels.
pub open spec fn channel_mean(p: Seq<u8>, c: int, a: int, b: int) -> int {
    if b <= a {
        0
    } else {
        channel_sum(p, c, a, b) as int / (b - a)
    }
}

pub struct Color {
    pub red: u8,
    pub green: u8,
    pub blue: u8,
}

impl Color {
    pub open spec fn channel(self, c: int) -> u8 {
        if c == 0 {
            self.red
        } else if c == 1 {
            self.green
        } else {
            self.blue
        }
    }
}

fn mean_of(p: &Vec<u8>, c: usize, a: usize, b: usize) -> (r: u8)
    requires
        c < 3,
        a <= b,
        b * 4 <= p@.len(),
    ensures
        r == channel_mean(p@, c as int, a as int, b as int),
{
    if a == b {
        return 0;
    }
    let total: usize = p.len();
    let mut sum: u128 = 0;
    let mut i: usize = a;
    while i < b
        invariant
            a <= i <= b,
            c < 3,
            total == p@.len(),
            b * 4 <= total,
            sum == channel_sum(p@, c as int, a as int, i as int),
            sum <= 255 * (i - a),
        decreases b - i,
    {
        sum = sum + p[i * 4 + c] as u128;
        i = i + 1;
    }
    let count: u128 = (b - a) as u128;
    assert(sum / count <= 255) by (nonlinear_arith)
        requires
            sum <= 255 * count,
            count > 0,
    ;
    (sum / count) as u8
}

/// The mean color of rows of an image.
pub open spec fn row_mean(i: RgbaImage, c: int, first: int, end: int) -> int {
    channel_mean(i.pixels@, c, first * i.width, end * i.width)
}

/// The mean color of the rows from `first` up to `end`.
pub fn average_color(image: &RgbaImage, first: u32, end: u32) -> (r: Color)
    requires
        image.wf(),
        image.small(),
        first <= end <= image.height,
    ensures
        forall|c: int|
            0 <= c < 3 ==> #[trigger] r.channel(c) == row_mean(*image, c, first as int, end as int),
{
    let w: usize = image.width as usize;
    proof {
        assert(first * w <= end * w <= image.height * w) by (nonlinear_arith)
            requires
                first <= end <= image.height,
                0 < w,
        ;
        assert(image.height * w <= 4194304) by (nonlinear_arith)
            requires
                0 < w <= 2048,
                image.height <= 2048,
        ;
        assert(image.height * w == image.width * image.height) by (nonlinear_arith)
            requires
                w == image.width,
        ;
    }
    let a: usize = first as usize * w;
    let b: usize = end as usize * w;
    let red = mean_of(&image.pixels, 0, a, b);
    let green = mean_of(&image.pixels, 1, a, b);
    let blue = mean_of(&image.pixels, 2, a, b);
    Color { red, green, blue }
}

/// The mean colors of the upper and of the lower half of an image.
pub fn half_colors(image: &RgbaImage) -> (r: (Color, Color))
    requires
        image.wf(),
        image.small(),
    ensures
        ({
            let split = image.height as int / 2;
            forall|c: int|
                0 <= c < 3 ==> #[trigger] r.0.channel(c) == row_mean(
                    *image,
                    c,
                    0,
                    if split < 1 {
                        1
                    } else {
                        split
                    },
                ) && r.1.channel(c) == row_mean(*image, c, split, image.height as int)
        }),
{
    let split: u32 = image.height / 2;
    let top = average_color(
        image,
        0,
        if split < 1 {
            1
        } else {
            split
        },
    );
    let bottom = average_color(image, split, image.height);
    (top, bottom)
}

/// A value between two, `amount` of 255 parts towards the second.
pub open spec fn blend(start: u8, end: u8, amount: int) -> int {
    (start * (255 - amount) + end * amount) / 255
}

pub fn lerp(start: u8, end: u8, amount: u32) -> (r: u8)
    requires
        amount <= 255,
    ensures
        r == blend(start, end, amount as int),
{
    proof {
        assert(start * (255 - amount) <= 255 * (255 - amount) && start * (255 - amount) >= 0)
            by (nonlinear_arith)
            requires
                0 <= start <= 255,
                0 <= amount <= 255,
        ;
        assert(end * amount <= 255 * amount && end * amount >= 0) by (nonlinear_arith)
            requires
                0 <= end <= 255,
                0 <= amount <= 255,
        ;
    }
    ((start as u32 * (255 - amount) + end as u32 * amount) / 255) as u8
}

/// A value a tenth further away from the middle, rounded towards the middle.
pub open spec fn saturated(v: u8) -> int {
    if v >= 128 {
        let s = 128 + (v - 128) * 11 / 10;
        if s > 255 {
            255
        } else {
            s
        }
    } else {
        let s = 128 - (128 - v) * 11 / 10;
        if s < 0 {
            0
        } else {
            s
        }
    }
}

pub fn saturate(value: u8) -> (r: u8)
    ensures
        r == saturated(value),
{
    if value >= 128 {
        let s: u32 = 128 + (value as u32 - 128) * 11 / 10;
        if s > 255 {
            255
        } else {
            s as u8
        }
    } else {
        let d: u32 = (128 - value as u32) * 11 / 10;
        if d > 128 {
            0
        } else {
            (128 - d) as u8
        }
    }
}

/// How far down a row of the small image is, of 255 parts.
pub open spec fn mix_at(y: int) -> int {
    y * 255 / (BLUR_HEIGHT - 1)
}

/// A byte of the small image, blurred and tinted: three parts of the blurred
/// pixel and one of the gradient between the colors of the halves.
pub open spec fn tinted(p: Seq<u8>, top: Color, bottom: Color, k: int) -> u8 {
    if k % 4 == 3 {
        255
    } else {
        let gradient = blend(
            top.channel(k % 4),
            bottom.channel(k % 4),
            mix_at(k / 4 / (BLUR_WIDTH as int)),
        );
        saturated(((p[k] * 3 + gradient) / 4) as u8) as u8
    }
}

fn channel_of(color: &Color, c: usize) -> (r: u8)
    requires
        c < 3,
    ensures
        r == color.channel(c as int),
{
    if c == 0 {
        color.red
    } else if c == 1 {
        color.green
    } else {
        color.blue
    }
}

/// Tints the blurred image.
pub fn tint(blurred: &RgbaImage, top: &Color, bottom: &Color) -> (r: RgbaImage)
    requires
        blurred.wf(),
        blurred.width == BLUR_WIDTH,
        blurred.height == BLUR_HEIGHT,
    ensures
        r.wf(),
        r.width == BLUR_WIDTH,
        r.height == BLUR_HEIGHT,
        forall|k: int|
            0 <= k < r.pixels@.len() ==> #[trigger] r.pixels@[k] == tinted(
                blurred.pixels@,
                *top,
                *bottom,
                k,
            ),
{
    let total: usize = blurred.pixels.len();
    assert(blurred.width as int * blurred.height as int == 10080) by (nonlinear_arith)
        requires
            blurred.width == 84,
            blurred.height == 120,
    ;
    let mut out: Vec<u8> = Vec::new();
    let mut k: usize = 0;
    while k < total
        invariant
            total == 40320,
            blurred.pixels@.len() == total,
            k <= total,
            out@.len() == k,
            forall|j: int|
                0 <= j < k ==> #[trigger] out@[j] == tinted(blurred.pixels@, *top, *bottom, j),
        decreases total - k,
    {
        let c: usize = k % 4;
        if c == 3 {
            out.push(255);
        } else {
            let y: u32 = (k / 4 / 84) as u32;
            assert(y < 120);
            let mix: u32 = y * 255 / 119;
            let gradient = lerp(channel_of(top, c), channel_of(bottom, c), mix);
            let combined: u32 = (blurred.pixels[k] as u32 * 3 + gradient as u32) / 4;
            out.push(saturate(combined as u8));
        }
        k = k + 1;
    }
    RgbaImage { width: BLUR_WIDTH, height: BLUR_HEIGHT, pixels: out }
}

/// The share of its brightness, of a hundred, that a row keeps: less towards the
/// upper and the lower edge.
pub open spec fn kept_light(y: int) -> int {
    let middle = BACKGROUND_HEIGHT as int / 2;
    let edge = if y < middle {
        middle - y
    } else {
        y - middle
    };
    40 - edge * 20 / middle
}

/// The alpha of a row: opaque, and fading out over the last rows.
pub open spec fn fade_alpha(y: int) -> int {
    if y < BACKGROUND_FADE_START {
        255
    } else {
        (BACKGROUND_HEIGHT - 1 - y) * 255 / (BACKGROUND_FADE_SPAN - 1)
    }
}

/// A byte of the background.
pub open spec fn finished(p: Seq<u8>, k: int) -> int {
    let y = k / 4 / (BACKGROUND_WIDTH as int);
    if k % 4 == 3 {
        fade_alpha(y)
    } else {
        p[k] * kept_light(y) / 100
    }
}

/// Darkens the edges of the background and fades it out.
pub fn finish_background(image: &RgbaImage) -> (r: RgbaImage)
    requires
        image.wf(),
        image.width == BACKGROUND_WIDTH,
        image.height == BACKGROUND_HEIGHT,
    ensures
        r.wf(),
        r.width == BACKGROUND_WIDTH,
        r.height == BACKGROUND_HEIGHT,
        forall|k: int|
            0 <= k < r.pixels@.len() ==> #[trigger] r.pixels@[k] == finished(image.pixels@, k),
{
    let total: usize = image.pixels.len();
    assert(image.width as int * image.height as int == 174720) by (nonlinear_arith)
        requires
            image.width == 336,
            image.height == 520,
    ;
    let mut out: Vec<u8> = Vec::new();
    let mut k: usize = 0;
    while k < total
        invariant
            total == 698880,
            image.pixels@.len() == total,
            k <= total,
            out@.len() == k,
            forall|j: int| 0 <= j < k ==> #[trigger] out@[j] == finished(image.pixels@, j),
        decreases total - k,
    {
        let y: u32 = (k / 4 / 336) as u32;
        assert(y < 520);
        if k % 4 == 3 {
            let alpha: u32 = if y < BACKGROUND_FADE_START {
                255
            } else {
                (519 - y) * 255 / 39
            };
            out.push(alpha as u8);
        } else {
            let edge: u32 = if y < 260 {
                260 - y
            } else {
                y - 260
            };
            let keep: u32 = 40 - edge * 20 / 260;
            let value: u32 = image.pixels[k] as u32;
            assert(value * keep <= 255 * 40) by (nonlinear_arith)
                requires
                    0 <= value <= 255,
                    0 <= keep <= 40,
            ;
            out.push((value * keep / 100) as u8);
        }
        k = k + 1;
    }
    RgbaImage { width: BACKGROUND_WIDTH, height: BACKGROUND_HEIGHT, pixels: out }
}

/// The part of an image that fills the background.
pub open spec fn background_part(i: RgbaImage) -> (int, int, int, int) {
    let (w, h) = fill_part(
        i.width as int,
        i.height as int,
        BACKGROUND_WIDTH as int,
        BACKGROUND_HEIGHT as int,
    );
    ((i.width - w) / 2, (i.height - h) / 2, w, h)
}

/// Cuts the part that fills the background out of an image.
pub fn background_crop(image: &RgbaImage) -> (r: Result<RgbaImage, String>)
    requires
        image.wf(),
        image.small(),
    ensures
        ({
            let (x, y, w, h) = background_part(*image);
            r matches Ok(c) && c.wf() && c.small() && c.width == w && c.height == h && c.pixels@
                == cropped(image.pixels@, image.width as int, x, y, w, h)
        }),
{
    match aspect_fill_crop(image.width, image.height, BACKGROUND_WIDTH, BACKGROUND_HEIGHT) {
        Ok((w, h)) => Ok(crop(image, (image.width - w) / 2, (image.height - h) / 2, w, h)),
        Err(e) => Err(e),
    }
}

/// The mean color of the pixels from `a` up to `b`.
pub open spec fn mean_color(p: Seq<u8>, a: int, b: int) -> Color {
    Color {
        red: channel_mean(p, 0, a, b) as u8,
        green: channel_mean(p, 1, a, b) as u8,
        blue: channel_mean(p, 2, a, b) as u8,
    }
}

/// The blurred image, tinted with the colors of the halves of the small one.
pub open spec fn tinted_pixels(small: Seq<u8>, blurred: Seq<u8>) -> Seq<u8> {
    let half = BLUR_WIDTH * (BLUR_HEIGHT as int / 2);
    let top = mean_color(small, 0, half);
    let bottom = mean_color(small, half, BLUR_WIDTH * BLUR_HEIGHT);
    Seq::new(blurred.len(), |k: int| tinted(blurred, top, bottom, k))
}

/// Whether a background comes from an image by way of the small, the blurred and
/// the large pixels.
pub open spec fn background_by(
    image: RgbaImage,
    small: Seq<u8>,
    blurred: Seq<u8>,
    large: Seq<u8>,
    b: RgbaImage,
) -> bool {
    let (x, y, w, h) = background_part(image);
    &&& may_resample(
        cropped(image.pixels@, image.width as int, x, y, w, h),
        w as u32,
        h as u32,
        BLUR_WIDTH,
        BLUR_HEIGHT,
        Filter::Triangle,
        small,
    )
    &&& may_blur(small, BLUR_WIDTH, BLUR_HEIGHT, BLUR_SIGMA, blurred)
    &&& may_resample(
        tinted_pixels(small, blurred),
        BLUR_WIDTH,
        BLUR_HEIGHT,
        BACKGROUND_WIDTH,
        BACKGROUND_HEIGHT,
        Filter::Triangle,
        large,
    )
    &&& forall|k: int| 0 <= k < b.pixels@.len() ==> #[trigger] b.pixels@[k] == finished(large, k)
}

/// The background of an image: its filling part, made small, blurred and tinted,
/// then enlarged, darkened at the edges and faded out below.
pub fn background(image: &RgbaImage) -> (r: Result<RgbaImage, String>)
    requires
        image.wf(),
        image.small(),
    ensures
        r matches Ok(b) && b.wf() && b.width == BACKGROUND_WIDTH && b.height == BACKGROUND_HEIGHT
            && forall|k: int|
            0 <= k < b.pixels@.len() ==> if k % 4 == 3 {
                #[trigger] b.pixels@[k] == fade_alpha(k / 4 / (BACKGROUND_WIDTH as int))
            } else {
                b.pixels@[k] <= 102
            },
        r matches Ok(b) && exists|small: Seq<u8>, blurred: Seq<u8>, large: Seq<u8>|
            background_by(*image, small, blurred, large, b),
{
    let part = match background_crop(image) {
        Ok(part) => part,
        Err(e) => {
            return Err(e);
        },
    };
    let small = resample(&part, BLUR_WIDTH, BLUR_HEIGHT, Filter::Triangle);
    let blurred = blur(&small, BLUR_SIGMA);
    let (top, bottom) = half_colors(&small);
    let mixed = tint(&blurred, &top, &bottom);
    let large = resample(&mixed, BACKGROUND_WIDTH, BACKGROUND_HEIGHT, Filter::Triangle);
    let done = finish_background(&large);
    proof {
        let half = 5040int;
        assert(top.channel(0) == row_mean(small, 0, 0, 60));
        assert(top.channel(1) == row_mean(small, 1, 0, 60));
        assert(top.channel(2) == row_mean(small, 2, 0, 60));
        assert(top =~= mean_color(small.pixels@, 0, half));
        assert(bottom =~= mean_color(small.pixels@, half, 10080)) by {
            assert(bottom.channel(0) == row_mean(small, 0, 60, 120));
            assert(bottom.channel(1) == row_mean(small, 1, 60, 120));
            assert(bottom.channel(2) == row_mean(small, 2, 60, 120));
        }
        assert(mixed.pixels@ =~= tinted_pixels(small.pixels@, blurred.pixels@));
        assert(background_by(*image, small.pixels@, blurred.pixels@, large.pixels@, done));
    }
    assert forall|k: int| 0 <= k < done.pixels@.len() && k % 4 != 3 implies #[trigger] done.pixels@[k]
        <= 102 by {
        let y = k / 4 / (BACKGROUND_WIDTH as int);
        let v = large.pixels@[k];
        assert(0 <= y < 520);
        assert(0 <= kept_light(y) <= 40);
        assert(v * kept_light(y) <= 255 * 40) by (nonlinear_arith)
            requires
                0 <= v <= 255,
                0 <= kept_light(y) <= 40,
        ;
    }
    Ok(done)
}

/// The background is opaque above its last rows, never gets more opaque further
/// down, and is transparent at its end.
pub proof fn background_fades_out(y: int, below: int)
    requires
        0 <= y <= below < BACKGROUND_HEIGHT,
    ensures
        y <= BACKGROUND_FADE_START ==> fade_alpha(y) == 255,
        fade_alpha(below) <= fade_alpha(y),
        fade_alpha(BACKGROUND_HEIGHT - 1) == 0,
        0 <= fade_alpha(y) <= 255,
{
}

// ---------------------------------------------------------------- encoding

pub open spec fn low_byte(n: int) -> u8 {
    (n % 256) as u8
}

pub open spec fn high_byte(n: int) -> u8 {
    (n / 256 % 256) as u8
}

/// The header of an image of the watch: its format, sides and row length.
pub open spec fn bin_header(w: int, h: int) -> Seq<u8> {
    seq![
        0x19u8,
        0x10u8,
        0u8,
        0u8,
        low_byte(w),
        high_byte(w),
        low_byte(h),
        high_byte(h),
        low_byte(w * 4),
        high_byte(w * 4),
        0u8,
        0u8,
    ]
}

/// The pixels of an image of the watch: blue, green, red and alpha.
pub open spec fn bin_pixels(p: Seq<u8>) -> Seq<u8> {
    Seq::new(
        p.len(),
        |k: int|
            if k % 4 == 0 {
                p[k + 2]
            } else if k % 4 == 2 {
                p[k - 2]
            } else {
                p[k]
            },
    )
}

proof fn lemma_pixel(p: Seq<u8>, k: int)
    requires
        0 <= k <= p.len() - 4,
        k % 4 == 0,
    ensures
        bin_pixels(p).take(k + 4) == bin_pixels(p).take(k) + seq![
            p[k + 2],
            p[k + 1],
            p[k],
            p[k + 3],
        ],
{
    assert(bin_pixels(p).take(k + 4) =~= bin_pixels(p).take(k) + seq![
        p[k + 2],
        p[k + 1],
        p[k],
        p[k + 3],
    ]);
}

/// Why an image cannot be one of the watch.
pub open spec fn bin_fault(w: int, h: int) -> Option<Seq<char>> {
    if w > 65535 {
        Some("BIN 宽度溢出"@)
    } else if h > 65535 {
        Some("BIN 高度溢出"@)
    } else if w * 4 > 65535 {
        Some("BIN stride 溢出"@)
    } else {
        None
    }
}

/// Encodes an image in the format of the watch.
pub fn encode_lvgl_v9(image: &RgbaImage) -> (r: Result<Vec<u8>, String>)
    requires
        image.wf(),
    ensures
        match r {
            Ok(b) => bin_fault(image.width as int, image.height as int) is None && b@ == bin_header(
                image.width as int,
                image.height as int,
            ) + bin_pixels(image.pixels@),
            Err(e) => bin_fault(image.width as int, image.height as int) == Some(e@),
        },
{
    let w: u32 = image.width;
    let h: u32 = image.height;
    if w > 65535 {
        return Err("BIN 宽度溢出".to_owned());
    }
    if h > 65535 {
        return Err("BIN 高度溢出".to_owned());
    }
    let stride: u32 = w * 4;
    if stride > 65535 {
        return Err("BIN stride 溢出".to_owned());
    }
    let mut out: Vec<u8> = vec![
        0x19,
        0x10,
        0,
        0,
        (w % 256) as u8,
        (w / 256 % 256) as u8,
        (h % 256) as u8,
        (h / 256 % 256) as u8,
        (stride % 256) as u8,
        (stride / 256 % 256) as u8,
        0,
        0,
    ];
    assert(out@ =~= bin_header(w as int, h as int));
    let ghost head = out@;
    let total: usize = image.pixels.len();
    proof {
        assert(total % 4 == 0) by (nonlinear_arith)
            requires
                total == w * h * 4,
        ;
    }
    let mut k: usize = 0;
    while k < total
        invariant
            total == image.pixels@.len(),
            total % 4 == 0,
            k <= total,
            k % 4 == 0,
            out@ == head + bin_pixels(image.pixels@).take(k as int),
        decreases total - k,
    {
        let ghost before = out@;
        out.push(image.pixels[k + 2]);
        out.push(image.pixels[k + 1]);
        out.push(image.pixels[k]);
        out.push(image.pixels[k + 3]);
        proof {
            let p = image.pixels@;
            let one = seq![p[k + 2], p[k + 1], p[k as int], p[k + 3]];
            lemma_pixel(p, k as int);
            assert(out@ =~= before + one);
            assert(out@ =~= head + (bin_pixels(p).take(k as int) + one));
        }
        k = k + 4;
    }
    assert(bin_pixels(image.pixels@).take(k as int) =~= bin_pixels(image.pixels@));
    Ok(out)
}

/// A cover and a background have the fixed sizes that the import asks for.
pub proof fn encoded_sizes_are_fixed(p: Seq<u8>)
    ensures
        p.len() == COVER_WIDTH * COVER_HEIGHT * 4 ==> bin_fault(
            COVER_WIDTH as int,
            COVER_HEIGHT as int,
        ) is None && (bin_header(COVER_WIDTH as int, COVER_HEIGHT as int) + bin_pixels(p)).len()
            == COVER_BIN_BYTES,
        p.len() == BACKGROUND_WIDTH * BACKGROUND_HEIGHT * 4 ==> bin_fault(
            BACKGROUND_WIDTH as int,
            BACKGROUND_HEIGHT as int,
        ) is None && (bin_header(BACKGROUND_WIDTH as int, BACKGROUND_HEIGHT as int) + bin_pixels(
            p,
        )).len() == BACKGROUND_BIN_BYTES,
{
}

/// No pixel is lost: swapping red and blue once more gives the pixels back.
pub proof fn encoding_keeps_pixels(p: Seq<u8>)
    requires
        p.len() % 4 == 0,
    ensures
        bin_pixels(bin_pixels(p)) == p,
{
    assert(bin_pixels(bin_pixels(p)) =~= p);
}

// ---------------------------------------------------------------- laws

/// How far a row of the background is from its middle.
pub open spec fn from_middle(y: int) -> int {
    if y < 260 {
        260 - y
    } else {
        y - 260
    }
}

/// Of two rows the one nearer to the middle keeps at least as large a share of its
/// brightness: forty of a hundred in the middle, half of that at the edge, and in
/// between a share that falls evenly.
pub proof fn light_falls_towards_the_edges(nearer: int, farther: int)
    requires
        0 <= nearer < BACKGROUND_HEIGHT,
        0 <= farther < BACKGROUND_HEIGHT,
        from_middle(nearer) <= from_middle(farther),
    ensures
        kept_light(farther) <= kept_light(nearer),
        kept_light(BACKGROUND_HEIGHT as int / 2) == 40,
        kept_light(0) == 20,
        20 <= kept_light(nearer) <= 40,
        (40 - kept_light(nearer)) * 13 <= from_middle(nearer) < (41 - kept_light(nearer)) * 13,
{
    lemma_kept_light(nearer);
    lemma_kept_light(farther);
    lemma_kept_light(0);
    lemma_kept_light(260);
}

proof fn lemma_kept_light(y: int)
    ensures
        kept_light(y) == 40 - from_middle(y) / 13,
{
    assert(BACKGROUND_HEIGHT as int / 2 == 260);
    let edge = from_middle(y);
    assert(kept_light(y) == 40 - edge * 20 / 260);
    assert(edge * 20 / 260 == edge / 13);
}

/// A pixel of the background has the color that the large image has there, darker
/// by the share that its row keeps, and the opacity of its row.
pub proof fn finishing_darkens_each_pixel(p: Seq<u8>, x: int, y: int)
    requires
        0 <= x < BACKGROUND_WIDTH,
        0 <= y < BACKGROUND_HEIGHT,
    ensures
        ({
            let at = (y * BACKGROUND_WIDTH + x) * 4;
            &&& forall|c: int|
                0 <= c < 3 ==> {
                    &&& (#[trigger] finished(p, at + c)) * 100 <= p[at + c] * kept_light(y)
                    &&& p[at + c] * kept_light(y) < (finished(p, at + c) + 1) * 100
                }
            &&& y < BACKGROUND_FADE_START ==> finished(p, at + 3) == 255
            &&& y >= BACKGROUND_FADE_START ==> finished(p, at + 3) * 39 <= (519 - y) * 255 < (finished(
                p,
                at + 3,
            ) + 1) * 39
        }),
{
    let at = (y * BACKGROUND_WIDTH + x) * 4;
    assert forall|c: int| 0 <= c < 4 implies #[trigger] ((at + c) / 4) == y * 336 + x && (at + c) % 4
        == c by {}
    assert((y * 336 + x) / 336 == y);
    assert forall|c: int| 0 <= c < 3 implies {
        &&& (#[trigger] finished(p, at + c)) * 100 <= p[at + c] * kept_light(y)
        &&& p[at + c] * kept_light(y) < (finished(p, at + c) + 1) * 100
    } by {
        assert((at + c) / 4 == y * 336 + x);
        assert((at + c) % 4 == c);
    }
    assert((at + 3) / 4 == y * 336 + x);
    assert((at + 3) % 4 == 3);
}

/// Finishing keeps the order of brightness within a row: of two images the lighter
/// one stays at least as light, and black stays black.
pub proof fn finishing_keeps_the_order_of_light(p: Seq<u8>, q: Seq<u8>, k: int)
    requires
        0 <= k < BACKGROUND_WIDTH * BACKGROUND_HEIGHT * 4,
        k % 4 != 3,
        p.len() > k,
        q.len() > k,
        p[k] <= q[k],
    ensures
        finished(p, k) <= finished(q, k),
        finished(q, k) <= q[k],
        q[k] == 0 ==> finished(q, k) == 0,
{
    let y = k / 4 / 336;
    assert(0 <= y < 520);
    let keep = kept_light(y);
    lemma_kept_light(y);
    assert(20 <= keep <= 40);
    let a = p[k] as int;
    let b = q[k] as int;
    assert(a * keep <= b * keep <= b * 100) by (nonlinear_arith)
        requires
            0 <= a <= b,
            20 <= keep <= 40,
    ;
    assert(0 <= a * keep) by (nonlinear_arith)
        requires
            0 <= a,
            20 <= keep,
    ;
    assert(b == 0 ==> b * keep == 0) by (nonlinear_arith);
}

/// A blended value lies between the two, is the first one at one end and the
/// second one at the other, and moves on with its amount.
pub proof fn blending_goes_from_one_to_the_other(start: u8, end: u8, amount: int, more: int)
    requires
        0 <= amount <= more <= 255,
    ensures
        blend(start, end, 0) == start,
        blend(start, end, 255) == end,
        start <= end ==> start <= blend(start, end, amount) <= blend(start, end, more) <= end,
        start >= end ==> start >= blend(start, end, amount) >= blend(start, end, more) >= end,
        blend(start, end, amount) == blend(end, start, 255 - amount),
{
    let s = start as int;
    let e = end as int;
    lemma_blend(s, e, amount);
    lemma_blend(s, e, more);
    lemma_blend(s, e, 0);
    lemma_blend(s, e, 255);
    assert(s * (255 - amount) + e * amount == e * amount + s * (255 - amount));
    assert(start <= end ==> (e - s) * amount <= (e - s) * more && 0 <= (e - s) * amount && (e - s) * more
        <= (e - s) * 255) by (nonlinear_arith)
        requires
            s == start as int,
            e == end as int,
            0 <= amount <= more <= 255,
    ;
    assert(start >= end ==> (e - s) * amount >= (e - s) * more && 0 >= (e - s) * amount && (e - s) * more
        >= (e - s) * 255) by (nonlinear_arith)
        requires
            s == start as int,
            e == end as int,
            0 <= amount <= more <= 255,
    ;
}

proof fn lemma_blend(s: int, e: int, amount: int)
    ensures
        s * (255 - amount) + e * amount == 255 * s + (e - s) * amount,
{
    assert(s * (255 - amount) + e * amount == 255 * s + (e - s) * amount) by (nonlinear_arith);
}

/// Saturating moves a value away from the middle by a tenth of its distance, no
/// further than the ends of the scale, and keeps the order of values.
pub proof fn saturating_spreads_from_the_middle(v: u8, w: u8)
    requires
        v <= w,
    ensures
        saturated(v) <= saturated(w),
        saturated(128) == 128,
        0 <= saturated(v) <= 255,
        v >= 128 ==> v <= saturated(v),
        v <= 128 ==> saturated(v) <= v,
        128 <= v && saturated(v) < 255 ==> (saturated(v) - 128) * 10 <= (v - 128) * 11 < (saturated(v)
            - 127) * 10,
        v <= 128 && saturated(v) > 0 ==> (128 - saturated(v)) * 10 <= (128 - v) * 11 < (129
            - saturated(v)) * 10,
        saturated(v) == 255 ==> (v - 128) * 11 >= 1270,
        saturated(v) == 0 ==> (128 - v) * 11 >= 1280,
{
}

/// Rows are mixed from the upper color to the lower one: the first row has none
/// of the lower color, the last row none of the upper one.
pub proof fn gradient_runs_down(p: Seq<u8>, top: Color, bottom: Color, other: Color, x: int, c: int)
    requires
        0 <= x < BLUR_WIDTH,
        0 <= c < 3,
    ensures
        tinted(p, top, bottom, x * 4 + c) == tinted(p, top, other, x * 4 + c),
        tinted(p, top, bottom, (119 * BLUR_WIDTH + x) * 4 + c) == tinted(
            p,
            other,
            bottom,
            (119 * BLUR_WIDTH + x) * 4 + c,
        ),
{
    let k = x * 4 + c;
    assert(k / 4 == x && k % 4 == c);
    assert(x / 84 == 0);
    let a = top.channel(c);
    assert(a * (255 - 0) + bottom.channel(c) * 0 == a * (255 - 0) + other.channel(c) * 0);
    let l = (119 * BLUR_WIDTH + x) * 4 + c;
    assert(l / 4 == 119 * 84 + x && l % 4 == c);
    assert((119 * 84 + x) / 84 == 119);
    let b = bottom.channel(c);
    assert(top.channel(c) * (255 - 255) + b * 255 == other.channel(c) * (255 - 255) + b * 255);
}

/// Rows further down are mixed with no less of the lower color.
pub proof fn mixing_grows_downwards(y: int, below: int)
    requires
        0 <= y <= below < BLUR_HEIGHT,
    ensures
        mix_at(0) == 0,
        mix_at(119) == 255,
        0 <= mix_at(y) <= mix_at(below) <= 255,
        mix_at(y) * 119 <= y * 255 < (mix_at(y) + 1) * 119,
{
}

/// A tinted pixel is opaque, and its colors are saturated from a value of which
/// the blurred pixel makes three quarters and the gradient one.
pub proof fn tint_is_a_quarter(p: Seq<u8>, top: Color, bottom: Color, k: int)
    requires
        0 <= k < BLUR_WIDTH * BLUR_HEIGHT * 4,
    ensures
        k % 4 == 3 ==> tinted(p, top, bottom, k) == 255,
        k % 4 != 3 && top.channel(k % 4) == p[k] && bottom.channel(k % 4) == p[k] ==> tinted(
            p,
            top,
            bottom,
            k,
        ) == saturated(p[k]),
        k % 4 != 3 ==> exists|v: u8|
            {
                let gradient = blend(top.channel(k % 4), bottom.channel(k % 4), mix_at(k / 4 / 84));
                &&& #[trigger] saturated(v) == tinted(p, top, bottom, k)
                &&& v * 4 <= p[k] * 3 + gradient < (v + 1) * 4
            },
{
    let y = k / 4 / 84;
    assert(0 <= y < 120);
    if k % 4 != 3 {
        let a = top.channel(k % 4);
        let b = bottom.channel(k % 4);
        let m = mix_at(y);
        assert(0 <= m <= 255);
        blending_goes_from_one_to_the_other(a, b, m, m);
        let gradient = blend(a, b, m);
        assert(0 <= gradient <= 255);
        let v = ((p[k] * 3 + gradient) / 4) as u8;
        assert(v == (p[k] * 3 + gradient) / 4);
        saturating_spreads_from_the_middle(v, v);
        assert(saturated(v) == tinted(p, top, bottom, k));
    }
}

/// A mean lies between the smallest and the largest value, so that of equal values
/// it is that value, and other channels have no part in it.
pub proof fn means_lie_between(p: Seq<u8>, q: Seq<u8>, c: int, a: int, b: int, low: int, high: int)
    requires
        0 <= a < b,
        forall|i: int| a <= i < b ==> low <= #[trigger] p[i * 4 + c] <= high,
        forall|i: int| a <= i < b ==> p[i * 4 + c] == #[trigger] q[i * 4 + c],
    ensures
        low <= channel_mean(p, c, a, b) <= high,
        channel_mean(p, c, a, b) == channel_mean(q, c, a, b),
{
    lemma_sum_between(p, q, c, a, b, low, high);
    let n = b - a;
    let sum = channel_sum(p, c, a, b) as int;
    assert(low <= sum / n <= high) by (nonlinear_arith)
        requires
            n > 0,
            low * n <= sum <= high * n,
    ;
}

proof fn lemma_sum_between(p: Seq<u8>, q: Seq<u8>, c: int, a: int, b: int, low: int, high: int)
    requires
        0 <= a <= b,
        forall|i: int| a <= i < b ==> low <= #[trigger] p[i * 4 + c] <= high,
        forall|i: int| a <= i < b ==> p[i * 4 + c] == #[trigger] q[i * 4 + c],
    ensures
        low * (b - a) <= channel_sum(p, c, a, b) <= high * (b - a),
        channel_sum(p, c, a, b) == channel_sum(q, c, a, b),
    decreases b - a,
{
    if a < b {
        lemma_sum_between(p, q, c, a, b - 1, low, high);
        let v = p[(b - 1) * 4 + c] as int;
        assert(low <= v <= high);
        assert(q[(b - 1) * 4 + c] == p[(b - 1) * 4 + c]);
        assert(low * (b - 1 - a) + low == low * (b - a)) by (nonlinear_arith);
        assert(high * (b - 1 - a) + high == high * (b - a)) by (nonlinear_arith);
    } else {
        assert(low * 0 == 0 && high * 0 == 0);
    }
}

/// The mean of pixels, taken as often as there are pixels, comes to their sum but
/// for what is rounded off; the sum of a range is that of its two parts.
pub proof fn means_come_from_sums(p: Seq<u8>, c: int, a: int, m: int, b: int)
    requires
        0 <= a <= m <= b,
        a < b,
    ensures
        channel_sum(p, c, a, b) == channel_sum(p, c, a, m) + channel_sum(p, c, m, b),
        channel_sum(p, c, a, a + 1) == p[a * 4 + c],
        channel_mean(p, c, a, b) * (b - a) <= channel_sum(p, c, a, b) < (channel_mean(p, c, a, b) + 1)
            * (b - a),
    decreases b - m,
{
    reveal_with_fuel(channel_sum, 2);
    lemma_sum_parts(p, c, a, m, b);
    let n = b - a;
    let sum = channel_sum(p, c, a, b) as int;
    assert((sum / n) * n <= sum < (sum / n + 1) * n) by (nonlinear_arith)
        requires
            n > 0,
    ;
}

proof fn lemma_sum_parts(p: Seq<u8>, c: int, a: int, m: int, b: int)
    requires
        0 <= a <= m <= b,
    ensures
        channel_sum(p, c, a, b) == channel_sum(p, c, a, m) + channel_sum(p, c, m, b),
    decreases b - m,
{
    if m < b {
        lemma_sum_parts(p, c, a, m, b - 1);
    }
}

/// A pixel of a part of an image is the pixel of the image that stands as far to
/// the right and down from the corner of the part.
pub proof fn cropping_moves_pixels(
    p: Seq<u8>,
    w: int,
    x: int,
    y: int,
    cw: int,
    ch: int,
    col: int,
    row: int,
    c: int,
)
    requires
        0 <= col < cw,
        0 <= row < ch,
        0 <= c < 4,
    ensures
        cropped(p, w, x, y, cw, ch).len() == cw * ch * 4,
        cropped(p, w, x, y, cw, ch)[(row * cw + col) * 4 + c] == p[((y + row) * w + x + col) * 4
            + c],
{
    let k = (row * cw + col) * 4 + c;
    lemma_inside(row, col, cw, ch);
    assert(0 <= cw * ch) by (nonlinear_arith)
        requires
            0 < cw,
            0 < ch,
    ;
    assert(k / 4 == row * cw + col && k % 4 == c);
    assert((row * cw + col) / cw == row && (row * cw + col) % cw == col) by (nonlinear_arith)
        requires
            0 <= col < cw,
            0 <= row,
    ;
}

/// What is cut out for a cover is the largest square of the image, from its
/// middle: what is left over is shared evenly between the two sides.
pub proof fn squares_come_from_the_middle(i: RgbaImage)
    requires
        i.small(),
    ensures
        ({
            let (x, y, side) = square_part(i);
            &&& side == i.width || side == i.height
            &&& side <= i.width && side <= i.height
            &&& 0 <= x && 0 <= i.width - side - 2 * x <= 1
            &&& 0 <= y && 0 <= i.height - side - 2 * y <= 1
        }),
{
}

/// What is cut out for a background comes from the middle of the image: what is
/// left over is shared evenly between the two sides.
pub proof fn backgrounds_come_from_the_middle(i: RgbaImage)
    requires
        i.small(),
    ensures
        ({
            let (x, y, w, h) = background_part(i);
            &&& 0 < w && 0 <= x && 0 <= i.width - w - 2 * x <= 1
            &&& 0 < h && 0 <= y && 0 <= i.height - h - 2 * y <= 1
            &&& (w, h) == fill_part(i.width as int, i.height as int, 336, 520)
        }),
{
    fill_keeps_the_shape(i.width as int, i.height as int, 336, 520);
}

/// A number of sixteen bits that stands in a file, its low byte first.
pub open spec fn word_at(b: Seq<u8>, at: int) -> int {
    b[at] + b[at + 1] * 256
}

/// The header of an image tells its sides and how many bytes a row has, behind the
/// mark of the format, and is followed by the pixels.
pub proof fn headers_tell_the_sides(w: int, h: int)
    requires
        0 <= w,
        0 <= h,
        bin_fault(w, h) is None,
    ensures
        ({
            let b = bin_header(w, h);
            &&& b.len() == 12
            &&& b[0] == 0x19 && b[1] == 0x10
            &&& word_at(b, 2) == 0
            &&& word_at(b, 4) == w
            &&& word_at(b, 6) == h
            &&& word_at(b, 8) == 4 * w
            &&& word_at(b, 10) == 0
        }),
{
}

/// An image can be encoded exactly where its sides and the bytes of a row fit
/// sixteen bits.
pub proof fn sides_must_fit_the_header(w: int, h: int)
    requires
        0 <= w,
        0 <= h,
    ensures
        bin_fault(w, h) is None == (4 * w < 65536 && h < 65536),
{
}

/// A pixel is encoded in its place, blue first, then green, red and alpha.
pub proof fn pixels_are_encoded_in_place(p: Seq<u8>, i: int)
    requires
        0 <= i,
        i * 4 + 4 <= p.len(),
    ensures
        bin_pixels(p).len() == p.len(),
        bin_pixels(p)[i * 4] == p[i * 4 + 2],
        bin_pixels(p)[i * 4 + 1] == p[i * 4 + 1],
        bin_pixels(p)[i * 4 + 2] == p[i * 4],
        bin_pixels(p)[i * 4 + 3] == p[i * 4 + 3],
{
}

/// What the bytes of a cover tell goes before what its file is named, and the name
/// counts in upper and in lower case alike.
pub proof fn bytes_tell_before_the_name(file: Seq<u8>, ext: Seq<char>, other: Seq<char>)
    ensures
        guessed_format(signature(file)) is Some ==> read_as_png(file, ext) == read_as_png(
            file,
            other,
        ),
        read_as_png(file, text::uppered(ext)) == read_as_png(file, ext),
        signature(file).len() <= 16,
        file.len() <= 16 ==> signature(file) == file,
        file.len() >= 16 ==> signature(file) == file.take(16),
{
    assert(text::lowered(text::uppered(ext)) =~= text::lowered(ext));
    assert(file.len() == 16 ==> file.take(16) =~= file);
}

/// An image is taken whole or not at all, and only with sides between one and the
/// limit.
pub proof fn only_small_images_are_taken(d: Result<RgbaImage, String>, r: Result<RgbaImage, String>)
    requires
        accepted(d, r),
    ensures
        r is Ok <==> (d is Ok && 0 < d->Ok_0.width <= 2048 && 0 < d->Ok_0.height <= 2048),
        r is Ok ==> r == d,
{
}

proof fn lemma_uniform_mean(p: Seq<u8>, c: int, a: int, b: int, v: u8)
    requires
        0 <= a < b,
        forall|i: int| a <= i < b ==> #[trigger] p[i * 4 + c] == v,
    ensures
        channel_mean(p, c, a, b) == v,
{
    means_lie_between(p, p, c, a, b, v as int, v as int);
}

/// An image of one color stays one: tinting it with its own color only saturates
/// it, and makes it opaque.
pub proof fn plain_images_stay_plain(small: Seq<u8>, color: Color, k: int)
    requires
        small.len() == BLUR_WIDTH * BLUR_HEIGHT * 4,
        forall|i: int|
            #![trigger small[i * 4]]
            0 <= i < BLUR_WIDTH * BLUR_HEIGHT ==> small[i * 4] == color.red && small[i * 4 + 1]
                == color.green && small[i * 4 + 2] == color.blue,
        0 <= k < small.len(),
    ensures
        tinted_pixels(small, small).len() == small.len(),
        k % 4 == 3 ==> tinted_pixels(small, small)[k] == 255,
        k % 4 != 3 ==> tinted_pixels(small, small)[k] == saturated(color.channel(k % 4)),
{
    let half = 5040int;
    let all = 10080int;
    assert(BLUR_WIDTH * (BLUR_HEIGHT as int / 2) == half);
    assert(BLUR_WIDTH * BLUR_HEIGHT == all);
    let top = mean_color(small, 0, half);
    let bottom = mean_color(small, half, all);
    assert forall|i: int| 0 <= i < half implies #[trigger] small[i * 4 + 0] == color.red by {
        assert(small[i * 4] == color.red);
    }
    assert forall|i: int| half <= i < all implies #[trigger] small[i * 4 + 0] == color.red by {
        assert(small[i * 4] == color.red);
    }
    assert forall|i: int| 0 <= i < half implies #[trigger] small[i * 4 + 1] == color.green by {
        assert(small[i * 4] == color.red);
    }
    assert forall|i: int| half <= i < all implies #[trigger] small[i * 4 + 1] == color.green by {
        assert(small[i * 4] == color.red);
    }
    assert forall|i: int| 0 <= i < half implies #[trigger] small[i * 4 + 2] == color.blue by {
        assert(small[i * 4] == color.red);
    }
    assert forall|i: int| half <= i < all implies #[trigger] small[i * 4 + 2] == color.blue by {
        assert(small[i * 4] == color.red);
    }
    lemma_uniform_mean(small, 0, 0, half, color.red);
    lemma_uniform_mean(small, 0, half, all, color.red);
    lemma_uniform_mean(small, 1, 0, half, color.green);
    lemma_uniform_mean(small, 1, half, all, color.green);
    lemma_uniform_mean(small, 2, 0, half, color.blue);
    lemma_uniform_mean(small, 2, half, all, color.blue);
    tint_is_a_quarter(small, top, bottom, k);
    let i = k / 4;
    assert(small[i * 4] == color.red);
    assert(k == i * 4 + k % 4);
    if k % 4 != 3 {
        assert(small[k] == color.channel(k % 4));
        saturating_spreads_from_the_middle(small[k], small[k]);
    }
}

/// The upper color comes from the upper half alone, and the lower one from the
/// lower half.
pub proof fn halves_are_taken_apart(p: Seq<u8>, q: Seq<u8>, c: int)
    requires
        0 <= c < 3,
        forall|i: int| 0 <= i < 5040 ==> p[i * 4 + c] == #[trigger] q[i * 4 + c],
    ensures
        mean_color(p, 0, 5040).channel(c) == mean_color(q, 0, 5040).channel(c),
        mean_color(p, 0, 5040).channel(c) == channel_mean(p, c, 0, 5040),
{
    assert forall|i: int| 0 <= i < 5040 implies 0 <= #[trigger] p[i * 4 + c] <= 255 by {}
    means_lie_between(p, q, c, 0, 5040, 0, 255);
}

/// A cover that is told to be neither of the two formats is refused, and what is
/// taken was decoded as the format that it is told to be.
pub proof fn covers_are_read_as_what_they_are(
    file: Seq<u8>,
    ext: Seq<char>,
    r: Result<RgbaImage, String>,
)
    requires
        may_be_taken(file, ext, r),
    ensures
        read_as_png(file, ext) is None ==> r is Err,
        r matches Ok(i) ==> i.small() && i.wf() && read_as_png(file, ext) is Some && may_decode(
            file,
            read_as_png(file, ext)->0,
            2048,
            33554432,
            Ok((i.width, i.height, i.pixels@)),
        ),
{
}

/// A background goes through all its steps: the part that fills it is made small,
/// blurred, tinted and enlarged, and then darkened and faded out.
pub proof fn backgrounds_go_through_all_steps(
    image: RgbaImage,
    small: Seq<u8>,
    blurred: Seq<u8>,
    large: Seq<u8>,
    b: RgbaImage,
    k: int,
)
    requires
        background_by(image, small, blurred, large, b),
        image.small(),
        0 <= k < b.pixels@.len(),
    ensures
        ({
            let (w, h) = fill_part(image.width as int, image.height as int, 336, 520);
            &&& may_resample(
                cropped(
                    image.pixels@,
                    image.width as int,
                    (image.width - w) / 2,
                    (image.height - h) / 2,
                    w,
                    h,
                ),
                w as u32,
                h as u32,
                84,
                120,
                Filter::Triangle,
                small,
            )
            &&& may_blur(small, 84, 120, 8, blurred)
            &&& may_resample(
                tinted_pixels(small, blurred),
                84,
                120,
                336,
                520,
                Filter::Triangle,
                large,
            )
            &&& k % 4 != 3 ==> b.pixels@[k] * 100 <= large[k] * kept_light(k / 4 / 336)
            &&& k % 4 == 3 ==> b.pixels@[k] == fade_alpha(k / 4 / 336)
        }),
{
}

/// The first row is tinted with the mean color of the upper sixty rows, and the last
/// one with that of the lower sixty.
pub proof fn rows_are_tinted_by_their_half(
    small: Seq<u8>,
    blurred: Seq<u8>,
    other: Color,
    x: int,
    c: int,
)
    requires
        blurred.len() == 84 * 120 * 4,
        0 <= x < 84,
        0 <= c < 3,
    ensures
        tinted_pixels(small, blurred)[x * 4 + c] == tinted(
            blurred,
            mean_color(small, 0, 5040),
            other,
            x * 4 + c,
        ),
        tinted_pixels(small, blurred)[(119 * 84 + x) * 4 + c] == tinted(
            blurred,
            other,
            mean_color(small, 5040, 10080),
            (119 * 84 + x) * 4 + c,
        ),
{
    let top = mean_color(small, 0, 5040);
    let bottom = mean_color(small, 5040, 10080);
    gradient_runs_down(blurred, top, bottom, other, x, c);
}

} // verus!
