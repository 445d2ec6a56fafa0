//! The picture of a mouse cursor: from the raw bitmap that the system hands
//! out to a trimmed PNG with a hotspot.

use vstd::prelude::*;

use crate::bitmap::{
    bytes_of, law_margin_is_trimmed, law_outline_surrounds_solid_pixels,
    law_pixels_hold_the_bytes, law_trimming_is_determined, law_trimming_keeps_content, law_trimming_leaves_two_pixels,
    lemma_cut_is_determined, lemma_index, lemma_outline_is_determined, lemma_trim_goes_by_looks,
    pixels_of_bgra, seen_in_column, seen_in_line, Bitmap, Crop, Rgba,
};
use crate::units::{Ratio, XY};

verus! {

/// A text cursor is at most this wide.
pub const TEXT_CURSOR_MAX_WIDTH: i32 = 20;

/// A text cursor is at least this high.
pub const TEXT_CURSOR_MIN_HEIGHT: i32 = 20;

/// A cursor as the system draws it.
pub struct CursorShape {
    pub width: i32,
    pub height: i32,
    /// The pixels, line by line from the top, four bytes each: blue, green,
    /// red, alpha.
    pub bgra: Vec<u8>,
    /// Icons are used in place of cursors, and have no hotspot of their own.
    pub is_icon: bool,
    pub x_hotspot: u32,
    pub y_hotspot: u32,
}

/// A cursor ready for recording.
pub struct CursorData {
    /// The picture as a PNG file.
    pub image: Vec<u8>,
    /// The hotspot, relative to the size of the picture.
    pub hotspot: XY<Ratio>,
}

/// A cursor picture and its hotspot before they are encoded.
pub struct CursorPicture {
    pub bitmap: Bitmap,
    pub hotspot: XY<Ratio>,
}

/// The file that the PNG encoder of the `image` crate makes of a picture.
pub uninterp spec fn png_file(width: u32, height: u32, rgba: Seq<u8>) -> Seq<u8>;

/// `ImageBuffer::write_to` of the `image` crate in the PNG format, on the
/// buffer that `RgbaImage::from_raw` makes of the bytes. The file depends on
/// the picture alone. The format has no empty pictures; every other picture
/// is encoded, since writing to memory does not fail.
#[verifier::external_body]
fn encode_png(width: u32, height: u32, rgba: Vec<u8>) -> (png: Option<Vec<u8>>)
    requires
        rgba@.len() == width * height * 4,
    ensures
        match png {
            Some(file) => width != 0 && height != 0 && file@ == png_file(width, height, rgba@),
            None => width == 0 || height == 0,
        },
{
    let mut file = Vec::new();
    let image = image::RgbaImage::from_raw(width, height, rgba)?;
    image.write_to(&mut std::io::Cursor::new(&mut file), image::ImageFormat::Png).ok()?;
    Some(file)
}

/// Whether a cursor of this size is likely to be a text cursor, which is hard
/// to see on a bright background.
pub open spec fn text_cursor_size(width: int, height: int) -> bool {
    &&& width <= TEXT_CURSOR_MAX_WIDTH
    &&& height >= TEXT_CURSOR_MIN_HEIGHT
    &&& width <= height / 2
}

/// Whether a cursor of this size is likely to be a text cursor.
pub fn is_text_cursor(width: i32, height: i32) -> (text: bool)
    ensures
        text == text_cursor_size(width as int, height as int),
{
    width <= TEXT_CURSOR_MAX_WIDTH && height >= TEXT_CURSOR_MIN_HEIGHT && width <= height / 2
}

/// The height of a cursor whose bitmap is `bitmap_height` lines high.
pub open spec fn height_of(has_color: bool, bitmap_height: int) -> int {
    if !has_color && bitmap_height > 0 {
        bitmap_height / 2
    } else {
        bitmap_height
    }
}

/// The height of a cursor whose bitmap is `bitmap_height` lines high. Without
/// a colour bitmap there is only a mask, which holds two pictures on top of
/// each other.
pub fn cursor_height(has_color: bool, bitmap_height: i32) -> (height: i32)
    ensures
        height == height_of(has_color, bitmap_height as int),
{
    if !has_color && bitmap_height > 0 {
        bitmap_height / 2
    } else {
        bitmap_height
    }
}

impl CursorShape {
    /// The size is not negative, and the bytes are those of a picture of that
    /// size.
    pub open spec fn valid(&self) -> bool {
        &&& 0 <= self.width
        &&& 0 <= self.height
        &&& self.bgra@.len() == self.width * self.height * 4
    }

    /// `bitmap` is the cursor as the system draws it.
    pub open spec fn is_raw(&self, bitmap: &Bitmap) -> bool {
        &&& bitmap.width == self.width
        &&& bitmap.height == self.height
        &&& bitmap.pixels@ == pixels_of_bgra(self.bgra@)
    }

    /// `bitmap` is the cursor with an outline if it is a text cursor, and as
    /// the system draws it otherwise.
    pub open spec fn is_drawn(&self, bitmap: &Bitmap) -> bool {
        if text_cursor_size(self.width as int, self.height as int) {
            exists|raw: Bitmap| #[trigger] self.is_raw(&raw) && raw.outlines_to(bitmap)
        } else {
            self.is_raw(bitmap)
        }
    }

    /// The hotspot, relative to the size of the untrimmed picture. That of an
    /// icon is its centre.
    pub open spec fn hotspot(&self) -> XY<Ratio> {
        if self.is_icon {
            XY { x: Ratio { num: 1, den: 2 }, y: Ratio { num: 1, den: 2 } }
        } else {
            XY {
                x: Ratio { num: self.x_hotspot as i128, den: self.width as i128 },
                y: Ratio { num: self.y_hotspot as i128, den: self.height as i128 },
            }
        }
    }

    /// `picture` is the part of the drawn cursor that lies in the rectangle,
    /// with its hotspot.
    pub open spec fn is_cut(&self, drawn: &Bitmap, crop: Crop, picture: &CursorPicture) -> bool {
        &&& drawn.crops_to(crop, &picture.bitmap)
        &&& moves_to(
            self.hotspot().x,
            self.width as int,
            crop.x as int,
            crop.width as int,
            picture.hotspot.x,
        )
        &&& moves_to(
            self.hotspot().y,
            self.height as int,
            crop.y as int,
            crop.height as int,
            picture.hotspot.y,
        )
    }

    /// `picture` is the drawn cursor without its transparent margin, with its
    /// hotspot.
    pub open spec fn is_trimmed(&self, drawn: &Bitmap, picture: &CursorPicture) -> bool {
        ||| drawn.is_trim() && picture.bitmap.same_picture(drawn) && picture.hotspot
            == self.hotspot()
        ||| exists|crop: Crop| #[trigger]
            drawn.trims_by(crop) && self.is_cut(drawn, crop, picture)
    }

    /// `picture` is the trimmed cursor with its hotspot.
    pub open spec fn is_picture(&self, picture: &CursorPicture) -> bool {
        exists|drawn: Bitmap| #[trigger]
            self.is_drawn(&drawn) && self.is_trimmed(&drawn, picture)
    }
}

/// `after` is where `before`, a fraction of `size`, lies in the part that
/// starts at `start` and is `part` long.
pub open spec fn moves_to(before: Ratio, size: int, start: int, part: int, after: Ratio) -> bool {
    &&& after.num == before.num * size - start * before.den
    &&& after.den == before.den * part
}

/// The fraction of the part that starts at `start` and is `part` long, for a
/// fraction of `size`.
fn within_part(before: Ratio, size: i32, start: u32, part: u32) -> (after: Ratio)
    requires
        0 <= before.num <= u32::MAX,
        0 <= before.den <= u32::MAX,
        0 <= size,
    ensures
        moves_to(before, size as int, start as int, part as int, after),
{
    proof {
        assert(0 <= before.num * size <= u32::MAX * i32::MAX) by (nonlinear_arith)
            requires
                0 <= before.num <= u32::MAX,
                0 <= size <= i32::MAX,
        ;
        assert(0 <= start * before.den <= u32::MAX * u32::MAX) by (nonlinear_arith)
            requires
                0 <= before.den <= u32::MAX,
                0 <= start <= u32::MAX,
        ;
        assert(0 <= before.den * part <= u32::MAX * u32::MAX) by (nonlinear_arith)
            requires
                0 <= before.den <= u32::MAX,
                0 <= part <= u32::MAX,
        ;
    }
    Ratio {
        num: before.num * size as i128 - start as i128 * before.den,
        den: before.den * part as i128,
    }
}

/// The cursor's picture: outlined if it is a text cursor, and without its
/// transparent margin.
pub fn cursor_picture(shape: &CursorShape) -> (picture: CursorPicture)
    requires
        shape.valid(),
    ensures
        picture.bitmap.well_formed(),
        shape.is_picture(&picture),
        picture.bitmap.width > 0 && picture.bitmap.height > 0 <==> shape.width > 0 && shape.height
            > 0,
{
    let mut drawn = Bitmap::from_bgra(shape.width as u32, shape.height as u32, &shape.bgra);
    let ghost raw = drawn;
    assert(shape.is_raw(&raw));
    if is_text_cursor(shape.width, shape.height) {
        drawn.outline();
        assert(raw.outlines_to(&drawn));
    }
    assert(shape.is_drawn(&drawn));
    let hotspot = if shape.is_icon {
        XY { x: Ratio { num: 1, den: 2 }, y: Ratio { num: 1, den: 2 } }
    } else {
        XY {
            x: Ratio { num: shape.x_hotspot as i128, den: shape.width as i128 },
            y: Ratio { num: shape.y_hotspot as i128, den: shape.height as i128 },
        }
    };
    let ghost untrimmed = drawn;
    let trimmed = drawn.trim();
    match trimmed.crop {
        Some(crop) => {
            let picture = CursorPicture {
                bitmap: trimmed.bitmap,
                hotspot: XY {
                    x: within_part(hotspot.x, shape.width, crop.x, crop.width),
                    y: within_part(hotspot.y, shape.height, crop.y, crop.height),
                },
            };
            assert(untrimmed.trims_by(crop));
            picture
        },
        None => CursorPicture { bitmap: trimmed.bitmap, hotspot },
    }
}

/// The cursor as a PNG file, with its hotspot. A cursor without pixels has
/// none.
pub fn get_cursor_image_data(shape: &CursorShape) -> (data: Option<CursorData>)
    requires
        shape.valid(),
    ensures
        data is Some <==> shape.width > 0 && shape.height > 0,
        data matches Some(data) ==> exists|picture: CursorPicture| #[trigger]
            shape.is_picture(&picture) && data.hotspot == picture.hotspot && data.image@
                == png_file(
                picture.bitmap.width,
                picture.bitmap.height,
                bytes_of(picture.bitmap.pixels@),
            ),
{
    let picture = cursor_picture(shape);
    let bytes = picture.bitmap.to_rgba_bytes();
    match encode_png(picture.bitmap.width, picture.bitmap.height, bytes) {
        Some(image) => Some(CursorData { image, hotspot: picture.hotspot }),
        None => None,
    }
}

/// The picture and the hotspot are determined by the cursor as the system
/// draws it, so that the same cursor always becomes the same file.
pub proof fn law_same_cursor_same_file(
    shape: &CursorShape,
    one: &CursorPicture,
    other: &CursorPicture,
)
    requires
        shape.is_picture(one),
        shape.is_picture(other),
    ensures
        one.bitmap.same_picture(&other.bitmap),
        one.hotspot == other.hotspot,
        png_file(one.bitmap.width, one.bitmap.height, bytes_of(one.bitmap.pixels@)) == png_file(
            other.bitmap.width,
            other.bitmap.height,
            bytes_of(other.bitmap.pixels@),
        ),
{
    let a = choose|drawn: Bitmap| #[trigger]
        shape.is_drawn(&drawn) && shape.is_trimmed(&drawn, one);
    let b = choose|drawn: Bitmap| #[trigger]
        shape.is_drawn(&drawn) && shape.is_trimmed(&drawn, other);
    assert(a.same_picture(&b)) by {
        if text_cursor_size(shape.width as int, shape.height as int) {
            let raw_a = choose|raw: Bitmap| #[trigger] shape.is_raw(&raw) && raw.outlines_to(&a);
            let raw_b = choose|raw: Bitmap| #[trigger] shape.is_raw(&raw) && raw.outlines_to(&b);
            lemma_outline_is_determined(&raw_a, &raw_b, &a, &b);
        }
    }
    lemma_trim_goes_by_looks(&a, &b);
    if exists|crop: Crop| #[trigger] a.trims_by(crop) && shape.is_cut(&a, crop, one) {
        let crop = choose|crop: Crop| #[trigger] a.trims_by(crop) && shape.is_cut(&a, crop, one);
        law_trimming_is_determined(&b, crop, crop);
        let crop_b = choose|crop: Crop| #[trigger]
            b.trims_by(crop) && shape.is_cut(&b, crop, other);
        law_trimming_is_determined(&b, crop, crop_b);
        lemma_cut_is_determined(&a, &b, crop, &one.bitmap, &other.bitmap);
    } else if exists|crop: Crop| #[trigger] b.trims_by(crop) {
        let crop = choose|crop: Crop| #[trigger] b.trims_by(crop);
        law_trimming_is_determined(&b, crop, crop);
    }
}

/// Trimming does not move the hotspot: in pixels of the untrimmed picture it
/// is where it was.
pub proof fn law_hotspot_stays(before: Ratio, size: int, start: int, part: int, after: Ratio)
    requires
        moves_to(before, size, start, part, after),
    ensures
        after.num * part * before.den + start * after.den * before.den == before.num * size
            * after.den,
{
    assert((before.num * size - start * before.den) * part * before.den + start * (before.den
        * part) * before.den == before.num * size * (before.den * part)) by (nonlinear_arith);
}

/// A cursor counts as a text cursor if it is at most 20 pixels wide, at least 20
/// high, and at least twice as high as wide.
pub proof fn law_text_cursors_are_narrow(width: int, height: int)
    ensures
        text_cursor_size(width, height) <==> width <= 20 && height >= 20 && 2 * width <= height,
{
}

/// Two pictures of the cursor's height, and a line that may be left over, make up
/// a mask. A colour bitmap is as high as the cursor.
pub proof fn law_mask_is_twice_as_high(bitmap_height: int)
    ensures
        height_of(true, bitmap_height) == bitmap_height,
        bitmap_height >= 0 ==> bitmap_height - 2 * height_of(false, bitmap_height) == 0
            || bitmap_height - 2 * height_of(false, bitmap_height) == 1,
        bitmap_height < 0 ==> height_of(false, bitmap_height) == bitmap_height,
{
}

impl CursorShape {
    /// The byte number `k` of the pixel in column `x` of line `y`.
    pub open spec fn byte(&self, x: int, y: int, k: int) -> u8 {
        self.bgra@[4 * (y * self.width + x) + k]
    }

    /// Whether one of the eight pixels around this place has an alpha over 200.
    pub open spec fn is_beside_solid(&self, x: int, y: int) -> bool {
        exists|dx: int, dy: int|
            -1 <= dx <= 1 && -1 <= dy <= 1 && (dx != 0 || dy != 0) && 0 <= x + dx < self.width && 0
                <= y + dy < self.height && #[trigger] self.byte(x + dx, y + dy, 3) > 200
    }

    /// `pixel` is what is recorded of the cursor's pixel in column `x` of line `y`:
    /// its bytes, red first, unless it is a faint pixel that becomes part of the
    /// outline of a text cursor.
    pub open spec fn records(&self, x: int, y: int, pixel: Rgba) -> bool {
        if self.width <= 20 && self.height >= 20 && 2 * self.width <= self.height && self.byte(
            x,
            y,
            3,
        ) < 100 && self.is_beside_solid(x, y) {
            pixel.r == 0 && pixel.g == 0 && pixel.b == 0 && pixel.a == 100
        } else {
            pixel.r == self.byte(x, y, 2) && pixel.g == self.byte(x, y, 1) && pixel.b == self.byte(
                x,
                y,
                0,
            ) && pixel.a == self.byte(x, y, 3)
        }
    }

    /// `picture` is what is recorded of the cursor from column `x0` and line `y0` on:
    /// every pixel of it, and the hotspot at its old place.
    pub open spec fn is_window(&self, picture: &CursorPicture, x0: int, y0: int) -> bool {
        let width = picture.bitmap.width as int;
        let height = picture.bitmap.height as int;
        let hotspot = picture.hotspot;
        &&& 0 <= x0 && x0 + width <= self.width
        &&& 0 <= y0 && y0 + height <= self.height
        &&& picture.bitmap.pixels@.len() == width * height
        &&& forall|x: int, y: int|
            0 <= x < width && 0 <= y < height ==> self.records(
                x0 + x,
                y0 + y,
                #[trigger] picture.bitmap.pixels@[y * width + x],
            )
        &&& if self.is_icon {
            &&& 2 * (hotspot.x.num * width + x0 * hotspot.x.den) == self.width * hotspot.x.den
            &&& 2 * (hotspot.y.num * height + y0 * hotspot.y.den) == self.height * hotspot.y.den
        } else {
            &&& hotspot.x.num * width == (self.x_hotspot - x0) * hotspot.x.den
            &&& hotspot.y.num * height == (self.y_hotspot - y0) * hotspot.y.den
        }
        &&& width > 0 && height > 0 ==> hotspot.x.den > 0 && hotspot.y.den > 0
    }
}

/// The drawn cursor holds what is recorded of every pixel.
proof fn lemma_drawn(shape: &CursorShape, drawn: &Bitmap, x: int, y: int)
    requires
        shape.valid(),
        shape.is_drawn(drawn),
        0 <= x < shape.width,
        0 <= y < shape.height,
    ensures
        drawn.width == shape.width,
        drawn.height == shape.height,
        shape.records(x, y, drawn.at(x, y)),
        shape.byte(x, y, 3) > 0 ==> drawn.at(x, y).a > 0,
{
    assert forall|raw: Bitmap, rx: int, ry: int|
        shape.is_raw(&raw) && 0 <= rx < shape.width && 0 <= ry < shape.height implies ({
        let pixel = #[trigger] raw.at(rx, ry);
        pixel.b == shape.byte(rx, ry, 0) && pixel.g == shape.byte(rx, ry, 1) && pixel.r
            == shape.byte(rx, ry, 2) && pixel.a == shape.byte(rx, ry, 3)
    }) by {
        lemma_index(shape.width as int, shape.height as int, rx, ry);
        law_pixels_hold_the_bytes(shape.bgra@, ry * shape.width + rx);
    }
    if text_cursor_size(shape.width as int, shape.height as int) {
        let raw = choose|raw: Bitmap| #[trigger] shape.is_raw(&raw) && raw.outlines_to(drawn);
        law_outline_surrounds_solid_pixels(&raw, drawn, x, y);
        assert(raw.at(x, y).a == shape.byte(x, y, 3));
        if shape.is_beside_solid(x, y) {
            let (dx, dy) = choose|dx: int, dy: int|
                -1 <= dx <= 1 && -1 <= dy <= 1 && (dx != 0 || dy != 0) && 0 <= x + dx < shape.width
                    && 0 <= y + dy < shape.height && #[trigger] shape.byte(x + dx, y + dy, 3) > 200;
            assert(raw.at(x + dx, y + dy).a > 200);
        }
        assert forall|dx: int, dy: int|
            -1 <= dx <= 1 && -1 <= dy <= 1 && (dx != 0 || dy != 0) && 0 <= x + dx < raw.width && 0
                <= y + dy < raw.height && (#[trigger] raw.at(x + dx, y + dy)).a
                > 200 implies shape.is_beside_solid(x, y) by {
            assert(shape.byte(x + dx, y + dy, 3) > 200);
        }
    } else {
        assert(drawn.at(x, y).a == shape.byte(x, y, 3));
    }
}

/// The recorded picture is a part of the cursor as the system draws it: every
/// pixel keeps its colours and its alpha, but for the outline of a text cursor; the
/// hotspot stays where it is on the cursor; and no visible pixel is left out.
pub proof fn law_picture_shows_the_cursor(shape: &CursorShape, picture: &CursorPicture)
    requires
        shape.valid(),
        shape.is_picture(picture),
    ensures
        exists|x0: int, y0: int| #[trigger]
            shape.is_window(picture, x0, y0) && forall|x: int, y: int|
                0 <= x < shape.width && 0 <= y < shape.height && #[trigger] shape.byte(x, y, 3) > 0
                    ==> x0 <= x < x0 + picture.bitmap.width && y0 <= y < y0
                    + picture.bitmap.height,
{
    let drawn = choose|drawn: Bitmap| #[trigger]
        shape.is_drawn(&drawn) && shape.is_trimmed(&drawn, picture);
    if drawn.is_trim() && picture.bitmap.same_picture(&drawn) && picture.hotspot
        == shape.hotspot() {
        lemma_whole_window(shape, &drawn, picture);
    } else {
        let crop = choose|crop: Crop| #[trigger]
            drawn.trims_by(crop) && shape.is_cut(&drawn, crop, picture);
        lemma_cut_window(shape, &drawn, crop, picture);
        assert forall|x: int, y: int|
            0 <= x < shape.width && 0 <= y < shape.height && #[trigger] shape.byte(x, y, 3)
                > 0 implies crop.x <= x < crop.x + picture.bitmap.width && crop.y <= y < crop.y
            + picture.bitmap.height by {
            lemma_drawn(shape, &drawn, x, y);
            law_trimming_keeps_content(&drawn, crop, &picture.bitmap, x, y);
        }
    }
}

/// A cursor that is not trimmed is recorded as a whole.
proof fn lemma_whole_window(shape: &CursorShape, drawn: &Bitmap, picture: &CursorPicture)
    requires
        shape.valid(),
        shape.is_drawn(drawn),
        picture.bitmap.same_picture(drawn),
        picture.hotspot == shape.hotspot(),
    ensures
        shape.is_window(picture, 0, 0),
        picture.bitmap.width == shape.width,
        picture.bitmap.height == shape.height,
{
    if text_cursor_size(shape.width as int, shape.height as int) {
        let raw = choose|raw: Bitmap| #[trigger] shape.is_raw(&raw) && raw.outlines_to(drawn);
    }
    let width = shape.width as int;
    assert forall|x: int, y: int|
        0 <= x < width && 0 <= y < shape.height implies shape.records(
        0 + x,
        0 + y,
        #[trigger] picture.bitmap.pixels@[y * width + x],
    ) by {
        lemma_drawn(shape, drawn, x, y);
        assert(drawn.at(x, y) == picture.bitmap.pixels@[y * width + x]);
    }
}

/// A cursor that is trimmed is recorded from the corner of the cut on.
proof fn lemma_cut_window(
    shape: &CursorShape,
    drawn: &Bitmap,
    crop: Crop,
    picture: &CursorPicture,
)
    requires
        shape.valid(),
        shape.is_drawn(drawn),
        drawn.trims_by(crop),
        shape.is_cut(drawn, crop, picture),
    ensures
        shape.is_window(picture, crop.x as int, crop.y as int),
{
    if text_cursor_size(shape.width as int, shape.height as int) {
        let raw = choose|raw: Bitmap| #[trigger] shape.is_raw(&raw) && raw.outlines_to(drawn);
    }
    law_trimming_leaves_two_pixels(drawn, crop);
    let width = picture.bitmap.width as int;
    let height = picture.bitmap.height as int;
    assert forall|x: int, y: int|
        0 <= x < width && 0 <= y < height implies shape.records(
        crop.x + x,
        crop.y + y,
        #[trigger] picture.bitmap.pixels@[y * width + x],
    ) by {
        lemma_drawn(shape, drawn, crop.x + x, crop.y + y);
        assert(picture.bitmap.at(x, y) == drawn.at(x + crop.x, y + crop.y));
    }
    let before = shape.hotspot();
    let after = picture.hotspot;
    lemma_moved(before.x, shape.width as int, crop.x as int, width, after.x);
    lemma_moved(before.y, shape.height as int, crop.y as int, height, after.y);
    if shape.is_icon {
    } else {
        lemma_pixels(shape.x_hotspot as int, shape.width as int, crop.x as int, width, after.x);
        lemma_pixels(shape.y_hotspot as int, shape.height as int, crop.y as int, height, after.y);
    }
}

/// The fraction of a part, compared with the fraction of the whole.
proof fn lemma_moved(before: Ratio, size: int, start: int, part: int, after: Ratio)
    requires
        moves_to(before, size, start, part, after),
    ensures
        before.num == 1 && before.den == 2 ==> 2 * (after.num * part + start * after.den) == size
            * after.den && (part > 0 ==> after.den > 0),
{
    if before.num == 1 && before.den == 2 {
        assert(2 * ((size - start * 2) * part + start * (2 * part)) == size * (2 * part))
            by (nonlinear_arith);
    }
}

/// The same for a place that is given in pixels.
proof fn lemma_pixels(place: int, size: int, start: int, part: int, after: Ratio)
    requires
        after.num == place * size - start * size,
        after.den == size * part,
        0 <= size,
        0 <= part <= size,
    ensures
        after.num * part == (place - start) * after.den,
        part > 0 ==> after.den > 0,
{
    assert((place * size - start * size) * part == (place - start) * (size * part))
        by (nonlinear_arith);
    assert(part > 0 && size > 0 ==> size * part > 0) by (nonlinear_arith);
}

/// Of the transparent margin of a cursor at most two columns and two lines stay on
/// every side: if anything of the picture is visible, then something no further than
/// that from each of its edges.
pub proof fn law_picture_has_narrow_margins(shape: &CursorShape, picture: &CursorPicture)
    requires
        shape.valid(),
        shape.is_picture(picture),
        exists|x: int, y: int|
            0 <= x < shape.width && 0 <= y < shape.height && #[trigger] shape.byte(x, y, 3) > 0,
    ensures
        exists|x: int| 0 <= x <= 2 && #[trigger] seen_in_column(&picture.bitmap, x),
        exists|y: int| 0 <= y <= 2 && #[trigger] seen_in_line(&picture.bitmap, y),
        exists|x: int|
            picture.bitmap.width - 3 <= x < picture.bitmap.width && #[trigger] seen_in_column(
                &picture.bitmap,
                x,
            ),
        exists|y: int|
            picture.bitmap.height - 3 <= y < picture.bitmap.height && #[trigger] seen_in_line(
                &picture.bitmap,
                y,
            ),
{
    let (vx, vy) = choose|x: int, y: int|
        0 <= x < shape.width && 0 <= y < shape.height && #[trigger] shape.byte(x, y, 3) > 0;
    let drawn = choose|drawn: Bitmap| #[trigger]
        shape.is_drawn(&drawn) && shape.is_trimmed(&drawn, picture);
    lemma_drawn(shape, &drawn, vx, vy);
    let cut = &picture.bitmap;
    if drawn.is_trim() && cut.same_picture(&drawn) && picture.hotspot == shape.hotspot() {
        law_margin_is_trimmed(&drawn);
        assert(drawn.at(vx, vy).a > 0);
        assert forall|x: int| seen_in_column(&drawn, x) implies #[trigger] seen_in_column(cut, x) by {
            let y = choose|y: int| 0 <= y < drawn.height && (#[trigger] drawn.at(x, y)).a > 0;
            assert(cut.at(x, y).a > 0);
        }
        assert forall|y: int| seen_in_line(&drawn, y) implies #[trigger] seen_in_line(cut, y) by {
            let x = choose|x: int| 0 <= x < drawn.width && (#[trigger] drawn.at(x, y)).a > 0;
            assert(cut.at(x, y).a > 0);
        }
        assert(seen_in_column(cut, 0));
        assert(seen_in_line(cut, 0));
        assert(seen_in_column(cut, cut.width - 1));
        assert(seen_in_line(cut, cut.height - 1));
    } else {
        let crop = choose|crop: Crop| #[trigger]
            drawn.trims_by(crop) && shape.is_cut(&drawn, crop, picture);
        law_trimming_leaves_two_pixels(&drawn, crop);
        assert forall|x: int| 0 <= x < drawn.width && #[trigger] seen_in_column(
            &drawn,
            x,
        ) implies 0 <= x - crop.x < cut.width && seen_in_column(cut, x - crop.x) by {
            let y = choose|y: int| 0 <= y < drawn.height && (#[trigger] drawn.at(x, y)).a > 0;
            law_trimming_keeps_content(&drawn, crop, cut, x, y);
            assert(cut.at(x - crop.x, y - crop.y).a > 0);
        }
        assert forall|y: int| 0 <= y < drawn.height && #[trigger] seen_in_line(
            &drawn,
            y,
        ) implies 0 <= y - crop.y < cut.height && seen_in_line(cut, y - crop.y) by {
            let x = choose|x: int| 0 <= x < drawn.width && (#[trigger] drawn.at(x, y)).a > 0;
            law_trimming_keeps_content(&drawn, crop, cut, x, y);
            assert(cut.at(x - crop.x, y - crop.y).a > 0);
        }
        let left = choose|x: int|
            0 <= x <= crop.x + 2 && x < drawn.width && #[trigger] seen_in_column(&drawn, x);
        let top = choose|y: int|
            0 <= y <= crop.y + 2 && y < drawn.height && #[trigger] seen_in_line(&drawn, y);
        let right = choose|x: int|
            0 <= x < drawn.width && crop.x + crop.width <= x + 3 && #[trigger] seen_in_column(
                &drawn,
                x,
            );
        let bottom = choose|y: int|
            0 <= y < drawn.height && crop.y + crop.height <= y + 3 && #[trigger] seen_in_line(
                &drawn,
                y,
            );
        assert(seen_in_column(&drawn, left) && seen_in_column(&drawn, right));
        assert(seen_in_line(&drawn, top) && seen_in_line(&drawn, bottom));
        assert(seen_in_column(cut, left - crop.x));
        assert(seen_in_column(cut, right - crop.x));
        assert(seen_in_line(cut, top - crop.y));
        assert(seen_in_line(cut, bottom - crop.y));
    }
}

} // verus!
