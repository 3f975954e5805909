//! Pictures before and after the model: cropping, shrinking, and the form in which
//! they are saved.

use vstd::prelude::*;

verus! {

/// An RGBA picture.
pub struct Picture {
    pub rgba: Vec<u8>,
    pub width: u32,
    pub height: u32,
}

impl Picture {
    /// Four bytes per pixel, and the bytes of a row can be counted even where there
    /// are no rows.
    pub open spec fn wf(&self) -> bool {
        &&& self.rgba@.len() == 4 * (self.width * self.height)
        &&& 4 * self.width <= usize::MAX
    }

    /// The byte of channel `c` at column `x`, row `y`.
    pub open spec fn at(&self, x: int, y: int, c: int) -> u8 {
        self.rgba@[(y * self.width + x) * 4 + c]
    }
}

/// `part` is the `part.width` by `part.height` rectangle of `whole` at column `x`,
/// row `y`.
pub open spec fn is_crop(whole: Picture, part: Picture, x: int, y: int) -> bool {
    &&& part.wf()
    &&& 0 <= x && x + part.width <= whole.width
    &&& 0 <= y && y + part.height <= whole.height
    &&& forall|i: int|
        #![trigger part.rgba@[i]]
        0 <= i < part.rgba@.len() ==> part.rgba@[i] == whole.at(
            x + (i / 4) % (part.width as int),
            y + (i / 4) / (part.width as int),
            i % 4,
        )
}

/// `image::imageops::crop_imm`, copied out with `SubImage::to_image`: the pixels of
/// a rectangle that lies inside the picture, unchanged.
#[verifier::external_body]
fn crop_picture(whole: Picture, x: u32, y: u32, width: u32, height: u32) -> (part: Picture)
    requires
        whole.wf(),
        x + width <= whole.width,
        y + height <= whole.height,
    ensures
        part.width == width,
        part.height == height,
        is_crop(whole, part, x as int, y as int),
{
    let image = image::RgbaImage::from_raw(whole.width, whole.height, whole.rgba).unwrap();
    let rgba = image::imageops::crop_imm(&image, x, y, width, height).to_image().into_raw();
    Picture { rgba, width, height }
}

/// Largest side that the resampler is trusted with: up to here every pixel position
/// is exact in single precision. Beyond it a pixel of the result can come to lie
/// outside the picture, where all weights of the filter are zero; whether one does
/// depends on how the positions are rounded.
pub const MAX_SIDE: u32 = 0x100_0000;

/// Whether a picture is resampled here to the given size. It always is to its own
/// size, and a picture without pixels to any size that fits in memory. Else no side
/// may be above [`MAX_SIDE`], and neither the intermediate buffer nor the result may
/// outgrow memory.
pub open spec fn can_resize(p: Picture, width: int, height: int) -> bool {
    if p.width == 0 || p.height == 0 {
        4 * width <= usize::MAX && 4 * (width * height) <= isize::MAX
    } else if p.width == width && p.height == height {
        true
    } else {
        &&& p.width <= MAX_SIDE && p.height <= MAX_SIDE
        &&& width <= MAX_SIDE && height <= MAX_SIDE
        &&& 16 * (p.width * height) <= isize::MAX
        &&& 4 * (width * height) <= isize::MAX
    }
}

/// Every byte is zero.
pub open spec fn is_blank(p: Picture) -> bool {
    forall|i: int| 0 <= i < p.rgba@.len() ==> #[trigger] p.rgba@[i] == 0
}

/// Whether `out`, of the second size, is a picture that Lanczos resampling may give
/// for `rgba`, of the first size.
pub uninterp spec fn lanczos_gives(
    rgba: Seq<u8>,
    width: u32,
    height: u32,
    to_width: u32,
    to_height: u32,
    out: Seq<u8>,
) -> bool;

/// `image::imageops::resize` with the Lanczos filter: a picture of the given size that
/// comes of resampling this one, the very same one where the size does not change,
/// and a blank one where there is nothing to sample. The resampled values come out of
/// floating-point sums over a sine whose last digits depend on the machine, so which
/// of the possible pictures it is is left unsaid.
#[verifier::external_body]
fn resize_picture(p: Picture, width: u32, height: u32) -> (r: Picture)
    requires
        p.wf(),
        can_resize(p, width as int, height as int),
    ensures
        r.wf(),
        r.width == width,
        r.height == height,
        lanczos_gives(p.rgba@, p.width, p.height, width, height, r.rgba@),
        p.width > 0 && p.height > 0 && p.width == width && p.height == height ==> r.rgba@
            == p.rgba@,
        p.width == 0 || p.height == 0 ==> is_blank(r),
{
    let image = image::RgbaImage::from_raw(p.width, p.height, p.rgba).unwrap();
    let filter = image::imageops::FilterType::Lanczos3;
    let rgba = image::imageops::resize(&image, width, height, filter).into_raw();
    Picture { rgba, width, height }
}

/// `image::DynamicImage::into_rgb8` of an RGBA picture: the first three bytes of
/// every pixel.
#[verifier::external_body]
fn rgb_of(p: Picture) -> (rgb: Vec<u8>)
    requires
        p.wf(),
    ensures
        rgb@.len() == 3 * (p.width * p.height),
        forall|j: int|
            0 <= j < rgb@.len() ==> #[trigger] rgb@[j] == p.rgba@[(j / 3) * 4 + j % 3],
{
    let image = image::RgbaImage::from_raw(p.width, p.height, p.rgba).unwrap();
    image::DynamicImage::ImageRgba8(image).into_rgb8().into_raw()
}

/// A character in lower case, if it is an ASCII letter.
pub open spec fn lower(ch: char) -> char {
    if 'A' <= ch && ch <= 'Z' { (ch as int + 32) as char } else { ch }
}

/// Whether a file extension stands for JPEG, in any case of letters.
pub open spec fn jpeg_extension(ext: Seq<char>) -> bool {
    let low = Seq::new(ext.len(), |i: int| lower(ext[i]));
    low == "jpg"@ || low == "jpeg"@ || low == "jfif"@
}

/// `image::ImageFormat::from_extension`: whether the format of the extension is
/// JPEG.
#[verifier::external_body]
fn extension_is_jpeg(ext: &str) -> (jpeg: bool)
    ensures
        jpeg == jpeg_extension(ext@),
{
    matches!(image::ImageFormat::from_extension(ext), Some(image::ImageFormat::Jpeg))
}

/// Whether bytes suffice for a picture of the given size, whose rows can be counted.
pub open spec fn suffices(len: int, width: int, height: int) -> bool {
    &&& width <= u32::MAX && height <= u32::MAX
    &&& 4 * width <= usize::MAX
    &&& len >= 4 * (width * height)
}

/// Makes a picture of bytes, of which any surplus is dropped: nothing where there
/// are fewer than four per pixel, or where a row's bytes cannot be counted.
pub fn assemble(rgba: Vec<u8>, width: usize, height: usize) -> (picture: Option<Picture>)
    ensures
        picture is Some <==> suffices(rgba@.len() as int, width as int, height as int),
        picture matches Some(p) ==> p.wf() && p.rgba@ == rgba@.take(4 * (width * height))
            && p.width == width && p.height == height,
{
    if width as u64 > u32::MAX as u64 || height as u64 > u32::MAX as u64 {
        return None;
    }
    if width > usize::MAX / 4 {
        return None;
    }
    proof {
        assert(width * height <= 0xffff_ffff * 0xffff_ffff) by (nonlinear_arith)
            requires
                0 <= width <= 0xffff_ffff,
                0 <= height <= 0xffff_ffff,
        ;
        assert(0 <= width * height) by (nonlinear_arith)
            requires
                0 <= width,
                0 <= height,
        ;
    }
    let need: u128 = 4 * (width as u128 * height as u128);
    if need > rgba.len() as u128 {
        return None;
    }
    let mut rgba: Vec<u8> = rgba;
    rgba.truncate(need as usize);
    Some(Picture { rgba, width: width as u32, height: height as u32 })
}

/// Where a crop of at most `crop` pixels lies on a side of `len` pixels: as much of
/// it as there is, in the middle.
pub open spec fn centered(len: int, crop: int) -> (int, int) {
    let size = crate::tiling::min2(crop, len);
    ((len - size) / 2, size)
}

/// Cuts the middle out of a picture, at most `crop` pixels on each side.
pub fn center_crop(p: Picture, crop: u32) -> (part: Picture)
    requires
        p.wf(),
    ensures
        part.width == centered(p.width as int, crop as int).1,
        part.height == centered(p.height as int, crop as int).1,
        is_crop(
            p,
            part,
            centered(p.width as int, crop as int).0,
            centered(p.height as int, crop as int).0,
        ),
{
    let width: u32 = if crop < p.width { crop } else { p.width };
    let height: u32 = if crop < p.height { crop } else { p.height };
    let x: u32 = (p.width - width) / 2;
    let y: u32 = (p.height - height) / 2;
    crop_picture(p, x, y, width, height)
}

/// A crop has the size asked for, or the whole side where that is shorter. It lies
/// inside the side, and what is left over is split evenly: the far margin is at most one
/// pixel larger than the near one.
pub proof fn law_crop_is_centered(len: nat, crop: nat)
    ensures
        ({
            let (start, size) = centered(len as int, crop as int);
            let far = len - start - size;
            &&& 0 <= start && start + size <= len
            &&& crop <= len ==> size == crop
            &&& crop >= len ==> size == len
            &&& start <= far <= start + 1
        }),
{
}

/// A crop at least as large as the picture is the whole picture.
pub proof fn law_large_crop_keeps_all(p: Picture, part: Picture)
    requires
        p.wf(),
        part.width == p.width,
        part.height == p.height,
        is_crop(p, part, 0, 0),
    ensures
        part.rgba@ == p.rgba@,
{
    let w = p.width as int;
    assert(part.rgba@.len() == p.rgba@.len());
    assert forall|i: int| 0 <= i < part.rgba@.len() implies part.rgba@[i] == p.rgba@[i] by {
        let px = i / 4;
        if w > 0 {
            vstd::arithmetic::div_mod::lemma_fundamental_div_mod(px, w);
            assert(w * (px / w) == (px / w) * w) by (nonlinear_arith);
            assert(((px / w) * w + px % w) * 4 + i % 4 == i);
        } else {
            assert(w * p.height == 0) by (nonlinear_arith)
                requires
                    w == 0,
            ;
        }
    }
    assert(part.rgba@ =~= p.rgba@);
}

/// A picture of the size that was asked for.
pub enum Scaled {
    /// The picture.
    Done(Picture),
    /// The picture before it is resampled, and the width and height to resample it to:
    /// whoever calls makes that call, at a size that is not resampled here.
    Open(Picture, u32, u32),
}

/// `q` is `p`, resampled to the size that it has.
pub open spec fn is_resampled(p: Picture, q: Picture) -> bool {
    &&& q.wf()
    &&& lanczos_gives(p.rgba@, p.width, p.height, q.width, q.height, q.rgba@)
    &&& p.width > 0 && p.height > 0 && q.width == p.width && q.height == p.height ==> q.rgba@
        == p.rgba@
    &&& p.width == 0 || p.height == 0 ==> is_blank(q)
}

/// `r` is the picture `p` at the size that `side` gives for each of its sides:
/// resampled where it can be here, else left open, unchanged, with that size.
pub open spec fn is_shrunk<F: Fn(u32) -> u32>(p: Picture, side: F, r: Scaled) -> bool {
    match r {
        Scaled::Done(q) => {
            &&& call_ensures(side, (p.width,), q.width)
            &&& call_ensures(side, (p.height,), q.height)
            &&& can_resize(p, q.width as int, q.height as int)
            &&& is_resampled(p, q)
        },
        Scaled::Open(q, width, height) => {
            &&& q == p
            &&& call_ensures(side, (p.width,), width)
            &&& call_ensures(side, (p.height,), height)
            &&& !can_resize(p, width as int, height as int)
        },
    }
}

/// Shrinks a picture to the size that `side` gives for each of its sides.
pub fn shrink<F: Fn(u32) -> u32>(p: Picture, side: &F) -> (r: Scaled)
    requires
        p.wf(),
        forall|n: u32| call_requires(*side, (n,)),
    ensures
        is_shrunk(p, *side, r),
{
    let width: u32 = side(p.width);
    let height: u32 = side(p.height);
    let most: u128 = isize::MAX as u128;
    proof {
        lemma_area(p.width as int, height as int);
        lemma_area(width as int, height as int);
    }
    let middle: u128 = 16 * (p.width as u128 * height as u128);
    let last: u128 = 4 * (width as u128 * height as u128);
    let fits: bool = if p.width == 0 || p.height == 0 {
        4 * (width as u128) <= usize::MAX as u128 && last <= most
    } else if p.width == width && p.height == height {
        true
    } else {
        p.width <= MAX_SIDE && p.height <= MAX_SIDE && width <= MAX_SIDE && height <= MAX_SIDE
            && middle <= most && last <= most
    };
    if fits {
        Scaled::Done(resize_picture(p, width, height))
    } else {
        Scaled::Open(p, width, height)
    }
}

/// The area of two sides.
proof fn lemma_area(a: int, b: int)
    requires
        0 <= a <= u32::MAX,
        0 <= b <= u32::MAX,
    ensures
        0 <= a * b <= 0xffff_fffe_0000_0001,
{
    assert(0 <= a * b <= 0xffff_fffe_0000_0001) by (nonlinear_arith)
        requires
            0 <= a <= 0xffff_ffff,
            0 <= b <= 0xffff_ffff,
    ;
}

/// `r` is the picture `p`, shrunk if `shrinks` to the size that `side` gives.
pub open spec fn maybe_shrunk<F: Fn(u32) -> u32>(
    p: Picture,
    shrinks: bool,
    side: F,
    r: Scaled,
) -> bool {
    if shrinks {
        is_shrunk(p, side, r)
    } else {
        r == Scaled::Done(p)
    }
}

/// `part` is the middle of `p` that `crop` asks for, or `p` itself where it asks for
/// none.
pub open spec fn is_middle(p: Picture, crop: Option<u32>, part: Picture) -> bool {
    match crop {
        None => part == p,
        Some(c) => {
            &&& part.width == centered(p.width as int, c as int).1
            &&& part.height == centered(p.height as int, c as int).1
            &&& is_crop(
                p,
                part,
                centered(p.width as int, c as int).0,
                centered(p.height as int, c as int).0,
            )
        },
    }
}

/// Prepares a picture for the model: cuts its middle out if asked to, then shrinks
/// it if asked to.
pub fn prepare<F: Fn(u32) -> u32>(
    p: Picture,
    crop: Option<u32>,
    shrinks: bool,
    side: &F,
) -> (prepared: Scaled)
    requires
        p.wf(),
        forall|n: u32| call_requires(*side, (n,)),
    ensures
        exists|part: Picture|
            #![trigger is_middle(p, crop, part)]
            is_middle(p, crop, part) && part.wf() && maybe_shrunk(part, shrinks, *side, prepared),
{
    let part: Picture = match crop {
        Some(c) => center_crop(p, c),
        None => p,
    };
    assert(is_middle(p, crop, part));
    if shrinks {
        shrink(part, side)
    } else {
        Scaled::Done(part)
    }
}

/// `p` is the picture of the given size that the bytes begin with.
pub open spec fn is_assembled(rgba: Seq<u8>, width: usize, height: usize, p: Picture) -> bool {
    &&& p.wf()
    &&& p.width == width
    &&& p.height == height
    &&& p.rgba@ == rgba.take(4 * (width * height))
}

/// Finishes the model's output: makes a picture of it and shrinks it if asked to.
/// Nothing where there are not enough bytes for a picture.
pub fn finish<F: Fn(u32) -> u32>(
    rgba: Vec<u8>,
    width: usize,
    height: usize,
    shrinks: bool,
    side: &F,
) -> (finished: Option<Scaled>)
    requires
        forall|n: u32| call_requires(*side, (n,)),
    ensures
        finished is Some <==> suffices(rgba@.len() as int, width as int, height as int),
        finished matches Some(r) ==> exists|p: Picture|
            #![trigger is_assembled(rgba@, width, height, p)]
            is_assembled(rgba@, width, height, p) && maybe_shrunk(p, shrinks, *side, r),
{
    match assemble(rgba, width, height) {
        None => None,
        Some(p) => {
            assert(is_assembled(rgba@, width, height, p));
            if shrinks {
                Some(shrink(p, side))
            } else {
                Some(Scaled::Done(p))
            }
        },
    }
}

/// What is handed to the encoder.
pub enum Encodable {
    /// The picture with its alpha channel.
    Rgba(Picture),
    /// Three bytes per pixel, with width and height.
    Rgb(Vec<u8>, u32, u32),
}

/// `e` is the form in which the picture is saved.
pub open spec fn is_encodable(p: Picture, extension: Option<&str>, e: Encodable) -> bool {
    match e {
        Encodable::Rgba(q) => q == p && !(extension matches Some(x) && jpeg_extension(x@)),
        Encodable::Rgb(rgb, w, h) => {
            &&& extension matches Some(x) && jpeg_extension(x@)
            &&& w == p.width
            &&& h == p.height
            &&& rgb@.len() == 3 * (p.width * p.height)
            &&& forall|j: int|
                0 <= j < rgb@.len() ==> #[trigger] rgb@[j] == p.rgba@[(j / 3) * 4 + j % 3]
        },
    }
}

/// The form in which a picture is saved to a file of the given extension: JPEG
/// cannot hold an alpha channel, so it is dropped there.
pub fn encodable(p: Picture, extension: Option<&str>) -> (e: Encodable)
    requires
        p.wf(),
    ensures
        is_encodable(p, extension, e),
{
    let jpeg: bool = match extension {
        Some(ext) => extension_is_jpeg(ext),
        None => false,
    };
    if jpeg {
        let (width, height) = (p.width, p.height);
        Encodable::Rgb(rgb_of(p), width, height)
    } else {
        Encodable::Rgba(p)
    }
}

/// A crop shows what the picture shows there: its pixel at column `x`, row `y` is the
/// picture's at that column and row counted from the crop's corner.
pub proof fn law_crop_shows_the_picture(
    whole: Picture,
    part: Picture,
    left: int,
    top: int,
    x: int,
    y: int,
    c: int,
)
    requires
        is_crop(whole, part, left, top),
        0 <= x < part.width,
        0 <= y < part.height,
        0 <= c < 4,
    ensures
        part.at(x, y, c) == whole.at(left + x, top + y, c),
{
    let w = part.width as int;
    let px = y * w + x;
    crate::pixels::lemma_pixel(x, y, w);
    crate::pixels::lemma_grid_index(x, y, w, part.height as int);
    assert(w * part.height == part.height * w) by (nonlinear_arith);
    let i = px * 4 + c;
    assert(i / 4 == px && i % 4 == c);
    let byte = part.rgba@[i];
}

/// Letters stand for JPEG in either case alike.
pub proof fn law_extensions_ignore_case(a: Seq<char>, b: Seq<char>)
    requires
        a.len() == b.len(),
        forall|i: int|
            0 <= i < a.len() ==> #[trigger] a[i] == b[i] || ('A' <= a[i] <= 'Z' && b[i] as int
                == a[i] as int + 32),
    ensures
        jpeg_extension(a) == jpeg_extension(b),
{
    assert(Seq::new(a.len(), |i: int| lower(a[i])) =~= Seq::new(b.len(), |i: int| lower(b[i])));
}

/// Bytes make a picture exactly where there are four for each of its pixels, or more,
/// and its sides and rows can be numbered.
pub proof fn law_surplus_bytes_do_not_matter(len: int, width: nat, height: nat)
    requires
        width <= u32::MAX,
        height <= u32::MAX,
        4 * width <= usize::MAX,
    ensures
        suffices(4 * (width * height) as int, width as int, height as int),
        suffices(len, width as int, height as int) <==> len >= 4 * (width * height),
        !suffices(len, u32::MAX + 1, height as int),
        !suffices(len, width as int, u32::MAX + 1),
{
}

/// A picture is shrunk to the width that `side` gives for its width and to the height
/// that it gives for its height; one that is not resampled here is handed on as it is,
/// with the size to resample it to. A picture that keeps its size keeps its pixels.
pub proof fn law_sides_are_shrunk_apart<F: Fn(u32) -> u32>(p: Picture, side: F, r: Scaled)
    requires
        is_shrunk(p, side, r),
    ensures
        match r {
            Scaled::Done(q) => {
                &&& call_ensures(side, (p.width,), q.width)
                &&& call_ensures(side, (p.height,), q.height)
                &&& q.rgba@.len() == 4 * (q.width * q.height)
                &&& p.width > 0 && p.height > 0 && q.width == p.width && q.height == p.height
                    ==> q.rgba@ == p.rgba@
            },
            Scaled::Open(q, width, height) => {
                &&& q == p
                &&& call_ensures(side, (p.width,), width)
                &&& call_ensures(side, (p.height,), height)
                &&& !(width == p.width && height == p.height && p.width > 0 && p.height > 0)
            },
        },
{
}

/// A picture that need not be shrunk is left as it is.
pub proof fn law_nothing_is_shrunk_unasked<F: Fn(u32) -> u32>(p: Picture, side: F, r: Scaled)
    ensures
        maybe_shrunk(p, false, side, r) <==> r == Scaled::Done(p),
        maybe_shrunk(p, true, side, r) <==> is_shrunk(p, side, r),
{
}

/// Saving keeps the colours: each pixel is handed on with its red, green and blue, in its
/// place; and its alpha is kept too, but for JPEG.
pub proof fn law_saving_keeps_the_colours(
    p: Picture,
    extension: Option<&str>,
    e: Encodable,
    x: int,
    y: int,
    c: int,
)
    requires
        is_encodable(p, extension, e),
        0 <= x < p.width,
        0 <= y < p.height,
        0 <= c < 3,
    ensures
        e is Rgb <==> (extension matches Some(x) && jpeg_extension(x@)),
        match e {
            Encodable::Rgba(q) => q == p,
            Encodable::Rgb(rgb, w, h) => {
                &&& w == p.width
                &&& h == p.height
                &&& rgb@[3 * (y * w + x) + c] == p.at(x, y, c)
            },
        },
{
    let w = p.width as int;
    let px = y * w + x;
    crate::pixels::lemma_grid_index(x, y, w, p.height as int);
    assert(w * p.height == p.height * w) by (nonlinear_arith);
    let j = 3 * px + c;
    assert(j / 3 == px && j % 3 == c);
    match e {
        Encodable::Rgb(rgb, _, _) => {
            let byte = rgb@[j];
        },
        _ => {},
    }
}

/// The middle of a picture is as wide and as high as asked for, or as the picture is, and
/// shows what the picture shows there; where none is asked for it is the picture.
pub proof fn law_middle_is_cut_from_both_axes(
    p: Picture,
    crop: Option<u32>,
    part: Picture,
    x: int,
    y: int,
    c: int,
)
    requires
        is_middle(p, crop, part),
        0 <= x < part.width,
        0 <= y < part.height,
        0 <= c < 4,
    ensures
        crop is None ==> part == p,
        crop matches Some(n) ==> {
            let (left, top) = ((p.width - part.width) / 2, (p.height - part.height) / 2);
            &&& n <= p.width ==> part.width == n
            &&& n >= p.width ==> part.width == p.width
            &&& n <= p.height ==> part.height == n
            &&& n >= p.height ==> part.height == p.height
            &&& part.at(x, y, c) == p.at(left + x, top + y, c)
        },
{
    if crop is Some {
        let n = crop->0 as int;
        law_crop_shows_the_picture(
            p,
            part,
            centered(p.width as int, n).0,
            centered(p.height as int, n).0,
            x,
            y,
            c,
        );
    }
}

/// Pictures of ordinary sides are always resampled here, and every picture to its own
/// size.
pub proof fn law_ordinary_pictures_are_resampled(p: Picture, width: nat, height: nat)
    requires
        p.wf(),
    ensures
        p.width <= 8192 && p.height <= 8192 && width <= 8192 && height <= 8192 ==> can_resize(
            p,
            width as int,
            height as int,
        ),
        p.width > 0 && p.height > 0 ==> can_resize(p, p.width as int, p.height as int),
{
    let (a, b) = (p.width as int, width as int);
    if a <= 8192 && width <= 8192 && height <= 8192 {
        assert(a * height <= 0x400_0000 && b * height <= 0x400_0000) by (nonlinear_arith)
            requires
                0 <= a <= 8192,
                0 <= b <= 8192,
                0 <= height <= 8192,
        ;
    }
}

} // verus!
