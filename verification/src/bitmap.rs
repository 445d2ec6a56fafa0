//! Small RGBA pictures and the operations that cursor pictures go through.

use vstd::prelude::*;

verus! {

/// One pixel.
#[derive(Clone, Copy, PartialEq, Eq, Structural, Debug)]
pub struct Rgba {
    pub r: u8,
    pub g: u8,
    pub b: u8,
    pub a: u8,
}

/// A shadow pixel: black, partly transparent.
pub open spec fn shadow() -> Rgba {
    Rgba { r: 0, g: 0, b: 0, a: SHADOW_ALPHA }
}

pub const SHADOW_ALPHA: u8 = 100;

/// Pixels with a higher alpha are solid and cast a shadow.
pub const SOLID_ALPHA: u8 = 200;

/// Pixels with a lower alpha are faint and take a shadow.
pub const FAINT_ALPHA: u8 = 100;

/// A picture, line by line from the top.
#[derive(PartialEq, Eq, Debug)]
pub struct Bitmap {
    pub width: u32,
    pub height: u32,
    pub pixels: Vec<Rgba>,
}

/// The rectangle that encloses the visible pixels of a picture. All four
/// limits belong to it.
#[derive(Clone, Copy, PartialEq, Eq, Structural, Debug)]
pub struct Bounds {
    pub min_x: u32,
    pub min_y: u32,
    pub max_x: u32,
    pub max_y: u32,
}

/// The rectangle that is cut out of a picture.
#[derive(Clone, Copy, PartialEq, Eq, Structural, Debug)]
pub struct Crop {
    pub x: u32,
    pub y: u32,
    pub width: u32,
    pub height: u32,
}

/// The pixels of a picture whose bytes stand in the order blue, green, red,
/// alpha.
pub open spec fn pixels_of_bgra(bgra: Seq<u8>) -> Seq<Rgba> {
    Seq::new(
        bgra.len() / 4,
        |i: int| Rgba { r: bgra[4 * i + 2], g: bgra[4 * i + 1], b: bgra[4 * i], a: bgra[4 * i + 3] },
    )
}

/// The bytes of a picture in the order red, green, blue, alpha.
pub open spec fn bytes_of(pixels: Seq<Rgba>) -> Seq<u8> {
    Seq::new(
        4 * pixels.len(),
        |i: int|
            if i % 4 == 0 {
                pixels[i / 4].r
            } else if i % 4 == 1 {
                pixels[i / 4].g
            } else if i % 4 == 2 {
                pixels[i / 4].b
            } else {
                pixels[i / 4].a
            },
    )
}

/// Two pixels that touch, at an edge or a corner.
pub open spec fn adjacent(x1: int, y1: int, x2: int, y2: int) -> bool {
    &&& -1 <= x1 - x2 <= 1
    &&& -1 <= y1 - y2 <= 1
    &&& (x1 != x2 || y1 != y2)
}

impl Bitmap {
    pub open spec fn well_formed(&self) -> bool {
        self.pixels@.len() == self.width * self.height
    }

    /// Whether the picture has a pixel at this place.
    pub open spec fn has(&self, x: int, y: int) -> bool {
        0 <= x < self.width && 0 <= y < self.height
    }

    /// The pixel in column `x` of line `y`.
    pub open spec fn at(&self, x: int, y: int) -> Rgba {
        self.pixels@[y * self.width + x]
    }

    /// Two pictures of one size.
    pub open spec fn same_size(&self, other: &Bitmap) -> bool {
        self.width == other.width && self.height == other.height
    }

    /// Two pictures that look the same.
    pub open spec fn same_picture(&self, other: &Bitmap) -> bool {
        self.same_size(other) && self.pixels@ == other.pixels@
    }

    /// Whether a solid pixel touches this place.
    pub open spec fn beside_solid(&self, x: int, y: int) -> bool {
        exists|sx: int, sy: int|
            self.has(sx, sy) && adjacent(sx, sy, x, y) && (#[trigger] self.at(sx, sy)).a
                > SOLID_ALPHA
    }

    /// `outlined` is this picture with a shadow around its solid pixels:
    /// every faint pixel that touches a solid one has become a shadow pixel,
    /// and nothing else has changed.
    pub open spec fn outlines_to(&self, outlined: &Bitmap) -> bool {
        &&& outlined.same_size(self)
        &&& outlined.well_formed()
        &&& forall|x: int, y: int|
            self.has(x, y) ==> #[trigger] outlined.at(x, y) == if self.at(x, y).a < FAINT_ALPHA
                && self.beside_solid(x, y) {
                shadow()
            } else {
                self.at(x, y)
            }
    }

    /// Whether some pixel is at all visible.
    pub open spec fn has_content(&self) -> bool {
        exists|x: int, y: int| self.has(x, y) && (#[trigger] self.at(x, y)).a > 0
    }

    /// `bounds` enclose every visible pixel, and no smaller rectangle does.
    pub open spec fn encloses_content(&self, bounds: Bounds) -> bool {
        &&& forall|x: int, y: int|
            self.has(x, y) && (#[trigger] self.at(x, y)).a > 0 ==> bounds.min_x <= x
                <= bounds.max_x && bounds.min_y <= y <= bounds.max_y
        &&& exists|y: int|
            self.has(bounds.min_x as int, y) && (#[trigger] self.at(bounds.min_x as int, y)).a > 0
        &&& exists|y: int|
            self.has(bounds.max_x as int, y) && (#[trigger] self.at(bounds.max_x as int, y)).a > 0
        &&& exists|x: int|
            self.has(x, bounds.min_y as int) && (#[trigger] self.at(x, bounds.min_y as int)).a > 0
        &&& exists|x: int|
            self.has(x, bounds.max_y as int) && (#[trigger] self.at(x, bounds.max_y as int)).a > 0
    }

    /// Whether the rectangle lies within the picture.
    pub open spec fn contains_crop(&self, crop: Crop) -> bool {
        crop.x + crop.width <= self.width && crop.y + crop.height <= self.height
    }

    /// `cut` is the part of this picture that lies in the rectangle.
    pub open spec fn crops_to(&self, crop: Crop, cut: &Bitmap) -> bool {
        &&& cut.well_formed()
        &&& cut.width == crop.width
        &&& cut.height == crop.height
        &&& forall|x: int, y: int|
            cut.has(x, y) ==> #[trigger] cut.at(x, y) == self.at(x + crop.x, y + crop.y)
    }
}

/// Every place in a picture has an index of its own.
pub proof fn lemma_index(width: int, height: int, x: int, y: int)
    requires
        0 <= x < width,
        0 <= y < height,
    ensures
        0 <= y * width + x < width * height,
        forall|x2: int, y2: int|
            0 <= x2 < width && 0 <= y2 && #[trigger] (y2 * width + x2) == y * width + x ==> x2 == x
                && y2 == y,
{
    assert(0 <= y * width + x < width * height) by (nonlinear_arith)
        requires
            0 <= x < width,
            0 <= y < height,
    ;
    assert forall|x2: int, y2: int|
        0 <= x2 < width && 0 <= y2 && #[trigger] (y2 * width + x2) == y * width + x implies x2 == x
        && y2 == y by {
        vstd::arithmetic::div_mod::lemma_fundamental_div_mod_converse(
            y * width + x,
            width,
            y,
            x,
        );
        vstd::arithmetic::div_mod::lemma_fundamental_div_mod_converse(
            y * width + x,
            width,
            y2,
            x2,
        );
    }
}

impl Bitmap {
    /// The picture of `width` by `height` pixels that these bytes hold, blue
    /// first.
    pub fn from_bgra(width: u32, height: u32, bgra: &Vec<u8>) -> (bitmap: Bitmap)
        requires
            bgra@.len() == width * height * 4,
        ensures
            bitmap.well_formed(),
            bitmap.width == width,
            bitmap.height == height,
            bitmap.pixels@ == pixels_of_bgra(bgra@),
            forall|i: int|
                0 <= i < bitmap.pixels@.len() ==> (#[trigger] bitmap.pixels@[i]).b == bgra@[4 * i]
                    && bitmap.pixels@[i].g == bgra@[4 * i + 1] && bitmap.pixels@[i].r == bgra@[4 * i
                    + 2] && bitmap.pixels@[i].a == bgra@[4 * i + 3],
    {
        let mut pixels: Vec<Rgba> = Vec::new();
        let mut i: usize = 0;
        while i < bgra.len()
            invariant
                i == 4 * pixels@.len(),
                i <= bgra@.len(),
                bgra@.len() % 4 == 0,
                forall|j: int|
                    0 <= j < pixels@.len() ==> #[trigger] pixels@[j] == pixels_of_bgra(bgra@)[j],
            decreases bgra@.len() - i,
        {
            pixels.push(Rgba { r: bgra[i + 2], g: bgra[i + 1], b: bgra[i], a: bgra[i + 3] });
            i = i + 4;
        }
        assert(pixels@ =~= pixels_of_bgra(bgra@));
        Bitmap { width, height, pixels }
    }

    /// The picture's bytes, red first.
    pub fn to_rgba_bytes(&self) -> (bytes: Vec<u8>)
        ensures
            bytes@ == bytes_of(self.pixels@),
    {
        let mut bytes: Vec<u8> = Vec::new();
        let mut i: usize = 0;
        while i < self.pixels.len()
            invariant
                i <= self.pixels@.len(),
                bytes@ == bytes_of(self.pixels@.take(i as int)),
            decreases self.pixels@.len() - i,
        {
            let pixel = self.pixels[i];
            let ghost before = bytes@;
            bytes.push(pixel.r);
            bytes.push(pixel.g);
            bytes.push(pixel.b);
            bytes.push(pixel.a);
            i = i + 1;
            assert(bytes@ =~= bytes_of(self.pixels@.take(i as int)));
        }
        assert(self.pixels@.take(i as int) =~= self.pixels@);
        bytes
    }

    /// Where the pixel in column `x` of line `y` stands.
    fn index_of(&self, x: u32, y: u32) -> (index: usize)
        requires
            self.well_formed(),
            self.has(x as int, y as int),
        ensures
            index == y * self.width + x,
            index < self.pixels@.len(),
    {
        proof {
            lemma_index(self.width as int, self.height as int, x as int, y as int);
            assert(0 <= y * self.width) by (nonlinear_arith);
        }
        let len: usize = self.pixels.len();
        assert(y * self.width <= len);
        y as usize * self.width as usize + x as usize
    }

    /// The pixel in column `x` of line `y`.
    pub fn get_pixel(&self, x: u32, y: u32) -> (pixel: Rgba)
        requires
            self.well_formed(),
            self.has(x as int, y as int),
        ensures
            pixel == self.at(x as int, y as int),
    {
        let index = self.index_of(x, y);
        self.pixels[index]
    }

    /// Sets the pixel in column `x` of line `y`.
    pub fn put_pixel(&mut self, x: u32, y: u32, pixel: Rgba)
        requires
            old(self).well_formed(),
            old(self).has(x as int, y as int),
        ensures
            final(self).well_formed(),
            final(self).same_size(old(self)),
            forall|px: int, py: int|
                final(self).has(px, py) ==> #[trigger] final(self).at(px, py) == if px == x && py
                    == y {
                    pixel
                } else {
                    old(self).at(px, py)
                },
    {
        proof {
            lemma_index(self.width as int, self.height as int, x as int, y as int);
        }
        let index = self.index_of(x, y);
        self.pixels.set(index, pixel);
        proof {
            assert forall|px: int, py: int| self.has(px, py) implies #[trigger] self.at(px, py)
                == if px == x && py == y {
                pixel
            } else {
                old(self).at(px, py)
            } by {
                lemma_index(self.width as int, self.height as int, px, py);
            }
        }
    }
}

impl Bitmap {
    /// Whether a solid pixel that comes before column `x` of line `y`, line by
    /// line, touches this place.
    spec fn beside_solid_before(&self, px: int, py: int, x: int, y: int) -> bool {
        exists|sx: int, sy: int|
            self.has(sx, sy) && adjacent(sx, sy, px, py) && (#[trigger] self.at(sx, sy)).a
                > SOLID_ALPHA && (sy < y || (sy == y && sx < x))
    }

    /// The picture while it is being outlined: the solid pixels before column
    /// `x` of line `y` have cast their shadows.
    spec fn outlined_before(&self, outlined: &Bitmap, x: int, y: int) -> bool {
        &&& outlined.same_size(self)
        &&& outlined.well_formed()
        &&& forall|px: int, py: int|
            self.has(px, py) ==> #[trigger] outlined.at(px, py) == if self.at(px, py).a
                < FAINT_ALPHA && self.beside_solid_before(px, py, x, y) {
                shadow()
            } else {
                self.at(px, py)
            }
    }

    /// Turns the faint pixels around this place into shadow pixels.
    fn cast_shadow(&mut self, x: u32, y: u32)
        requires
            old(self).well_formed(),
            old(self).has(x as int, y as int),
        ensures
            final(self).well_formed(),
            final(self).same_size(old(self)),
            forall|px: int, py: int|
                old(self).has(px, py) ==> #[trigger] final(self).at(px, py) == if adjacent(
                    x as int,
                    y as int,
                    px,
                    py,
                ) && old(self).at(px, py).a < FAINT_ALPHA {
                    shadow()
                } else {
                    old(self).at(px, py)
                },
    {
        let mut dx: i64 = -1;
        while dx <= 1
            invariant
                -1 <= dx <= 2,
                old(self).has(x as int, y as int),
                self.well_formed(),
                self.same_size(old(self)),
                forall|px: int, py: int|
                    old(self).has(px, py) ==> #[trigger] self.at(px, py) == if adjacent(
                        x as int,
                        y as int,
                        px,
                        py,
                    ) && px - x < dx && old(self).at(px, py).a < FAINT_ALPHA {
                        shadow()
                    } else {
                        old(self).at(px, py)
                    },
            decreases 2 - dx,
        {
            let mut dy: i64 = -1;
            while dy <= 1
                invariant
                    -1 <= dx <= 1,
                    -1 <= dy <= 2,
                    old(self).has(x as int, y as int),
                    self.well_formed(),
                    self.same_size(old(self)),
                    forall|px: int, py: int|
                        old(self).has(px, py) ==> #[trigger] self.at(px, py) == if adjacent(
                            x as int,
                            y as int,
                            px,
                            py,
                        ) && (px - x < dx || (px - x == dx && py - y < dy)) && old(self).at(
                            px,
                            py,
                        ).a < FAINT_ALPHA {
                            shadow()
                        } else {
                            old(self).at(px, py)
                        },
                decreases 2 - dy,
            {
                let nx: i64 = x as i64 + dx;
                let ny: i64 = y as i64 + dy;
                if nx >= 0 && ny >= 0 && nx < self.width as i64 && ny < self.height as i64 && !(dx
                    == 0 && dy == 0) {
                    let pixel = self.get_pixel(nx as u32, ny as u32);
                    if pixel.a < FAINT_ALPHA {
                        self.put_pixel(
                            nx as u32,
                            ny as u32,
                            Rgba { r: 0, g: 0, b: 0, a: SHADOW_ALPHA },
                        );
                    }
                }
                dy = dy + 1;
            }
            dx = dx + 1;
        }
    }

    /// Draws a shadow around the solid pixels, which makes them stand out on a
    /// bright background.
    pub fn outline(&mut self)
        requires
            old(self).well_formed(),
        ensures
            old(self).outlines_to(final(self)),
    {
        let mut y: u32 = 0;
        while y < self.height
            invariant
                y <= old(self).height,
                old(self).well_formed(),
                old(self).outlined_before(self, 0, y as int),
            decreases old(self).height - y,
        {
            let mut x: u32 = 0;
            while x < self.width
                invariant
                    x <= old(self).width,
                    y < old(self).height,
                    old(self).well_formed(),
                    old(self).outlined_before(self, x as int, y as int),
                decreases old(self).width - x,
            {
                let ghost before = *self;
                let pixel = self.get_pixel(x, y);
                assert(self.at(x as int, y as int) == pixel);
                assert(pixel.a > SOLID_ALPHA <==> old(self).at(x as int, y as int).a
                    > SOLID_ALPHA);
                if pixel.a > SOLID_ALPHA {
                    self.cast_shadow(x, y);
                }
                proof {
                    assert forall|px: int, py: int| old(self).has(px, py) implies #[trigger] self.at(
                        px,
                        py,
                    ) == if old(self).at(px, py).a < FAINT_ALPHA && old(self).beside_solid_before(
                        px,
                        py,
                        x + 1,
                        y as int,
                    ) {
                        shadow()
                    } else {
                        old(self).at(px, py)
                    } by {
                        old(self).lemma_next_solid(px, py, x as int, y as int);
                        assert(before.at(px, py) == if old(self).at(px, py).a < FAINT_ALPHA
                            && old(self).beside_solid_before(px, py, x as int, y as int) {
                            shadow()
                        } else {
                            old(self).at(px, py)
                        });
                    }
                }
                x = x + 1;
            }
            proof {
                assert forall|px: int, py: int|
                    old(self).has(px, py) implies old(self).beside_solid_before(
                    px,
                    py,
                    x as int,
                    y as int,
                ) == #[trigger] old(self).beside_solid_before(px, py, 0, y + 1) by {
                    old(self).lemma_next_line(px, py, y as int);
                }
                assert forall|px: int, py: int| old(self).has(px, py) implies #[trigger] self.at(
                    px,
                    py,
                ) == if old(self).at(px, py).a < FAINT_ALPHA && old(self).beside_solid_before(
                    px,
                    py,
                    0,
                    y + 1,
                ) {
                    shadow()
                } else {
                    old(self).at(px, py)
                } by {
                    old(self).lemma_next_line(px, py, y as int);
                }
            }
            y = y + 1;
        }
        proof {
            assert forall|px: int, py: int| old(self).has(px, py) implies #[trigger] self.at(px, py)
                == if old(self).at(px, py).a < FAINT_ALPHA && old(self).beside_solid(px, py) {
                shadow()
            } else {
                old(self).at(px, py)
            } by {
                old(self).lemma_all_lines(px, py);
            }
        }
    }

    /// One more pixel counts among those before: the one at `x`, `y`.
    proof fn lemma_next_solid(&self, px: int, py: int, x: int, y: int)
        requires
            self.has(x, y),
        ensures
            self.beside_solid_before(px, py, x + 1, y) <==> self.beside_solid_before(px, py, x, y)
                || (adjacent(x, y, px, py) && self.at(x, y).a > SOLID_ALPHA),
    {
        if self.beside_solid_before(px, py, x, y) {
            let (sx, sy) = choose|sx: int, sy: int|
                self.has(sx, sy) && adjacent(sx, sy, px, py) && (#[trigger] self.at(sx, sy)).a
                    > SOLID_ALPHA && (sy < y || (sy == y && sx < x));
            assert(self.at(sx, sy).a > SOLID_ALPHA);
            assert(self.beside_solid_before(px, py, x + 1, y));
        }
        if adjacent(x, y, px, py) && self.at(x, y).a > SOLID_ALPHA {
            assert(self.beside_solid_before(px, py, x + 1, y));
        }
        if self.beside_solid_before(px, py, x + 1, y) {
            let (sx, sy) = choose|sx: int, sy: int|
                self.has(sx, sy) && adjacent(sx, sy, px, py) && (#[trigger] self.at(sx, sy)).a
                    > SOLID_ALPHA && (sy < y || (sy == y && sx < x + 1));
            assert(self.at(sx, sy).a > SOLID_ALPHA);
            if sy < y || sx < x {
                assert(self.beside_solid_before(px, py, x, y));
            }
        }
    }

    /// All of a line comes before the next line.
    proof fn lemma_next_line(&self, px: int, py: int, y: int)
        ensures
            self.beside_solid_before(px, py, self.width as int, y) == self.beside_solid_before(
                px,
                py,
                0,
                y + 1,
            ),
    {
        if self.beside_solid_before(px, py, self.width as int, y) {
            let (sx, sy) = choose|sx: int, sy: int|
                self.has(sx, sy) && adjacent(sx, sy, px, py) && (#[trigger] self.at(sx, sy)).a
                    > SOLID_ALPHA && (sy < y || (sy == y && sx < self.width));
            assert(self.at(sx, sy).a > SOLID_ALPHA);
            assert(self.beside_solid_before(px, py, 0, y + 1));
        }
        if self.beside_solid_before(px, py, 0, y + 1) {
            let (sx, sy) = choose|sx: int, sy: int|
                self.has(sx, sy) && adjacent(sx, sy, px, py) && (#[trigger] self.at(sx, sy)).a
                    > SOLID_ALPHA && (sy < y + 1 || (sy == y + 1 && sx < 0));
            assert(self.at(sx, sy).a > SOLID_ALPHA);
            assert(self.beside_solid_before(px, py, self.width as int, y));
        }
    }

    /// Every pixel comes before the line below the last.
    proof fn lemma_all_lines(&self, px: int, py: int)
        ensures
            self.beside_solid_before(px, py, 0, self.height as int) == self.beside_solid(px, py),
    {
        if self.beside_solid(px, py) {
            let (sx, sy) = choose|sx: int, sy: int|
                self.has(sx, sy) && adjacent(sx, sy, px, py) && (#[trigger] self.at(sx, sy)).a
                    > SOLID_ALPHA;
            assert(self.at(sx, sy).a > SOLID_ALPHA);
            assert(self.beside_solid_before(px, py, 0, self.height as int));
        }
    }
}

/// Transparent pixels that stay around the visible ones when a picture is
/// trimmed.
pub const TRIM_PADDING: u32 = 2;

/// Whether the picture has a transparent margin around these bounds.
pub open spec fn has_margin(bitmap: &Bitmap, bounds: Bounds) -> bool {
    bounds.min_x > 0 || bounds.min_y > 0 || bounds.max_x < bitmap.width - 1 || bounds.max_y
        < bitmap.height - 1
}

/// The first column or line that stays.
pub open spec fn padded_min(min: u32) -> int {
    if min < TRIM_PADDING {
        0
    } else {
        min - TRIM_PADDING
    }
}

/// The last column or line that stays, of `size` in all.
pub open spec fn padded_max(max: u32, size: u32) -> int {
    if max + TRIM_PADDING < size - 1 {
        max + TRIM_PADDING
    } else {
        size - 1
    }
}

/// `crop` is what stays of the picture: these bounds, and the padding as far
/// as the picture reaches.
pub open spec fn is_padded(bitmap: &Bitmap, bounds: Bounds, crop: Crop) -> bool {
    &&& crop.x == padded_min(bounds.min_x)
    &&& crop.y == padded_min(bounds.min_y)
    &&& crop.width == padded_max(bounds.max_x, bitmap.width) - crop.x + 1
    &&& crop.height == padded_max(bounds.max_y, bitmap.height) - crop.y + 1
}

/// A picture without its transparent margin.
pub struct Trimmed {
    pub bitmap: Bitmap,
    /// Where it was cut from the original, unless there was nothing to cut.
    pub crop: Option<Crop>,
}

impl Bitmap {
    /// Whether `crop` is the rectangle to trim the picture to.
    pub open spec fn trims_by(&self, crop: Crop) -> bool {
        exists|bounds: Bounds| #[trigger]
            self.encloses_content(bounds) && has_margin(self, bounds) && is_padded(
                self,
                bounds,
                crop,
            )
    }

    /// Whether the picture has nothing to trim: no visible pixel, or no margin
    /// around the visible ones.
    pub open spec fn is_trim(&self) -> bool {
        ||| !self.has_content()
        ||| exists|bounds: Bounds| #[trigger]
            self.encloses_content(bounds) && !has_margin(self, bounds)
    }

    /// The bounds of the visible pixels, if any pixel is visible.
    pub fn content_bounds(&self) -> (bounds: Option<Bounds>)
        requires
            self.well_formed(),
        ensures
            match bounds {
                Some(bounds) => self.has_content() && self.encloses_content(bounds),
                None => !self.has_content(),
            },
    {
        let mut found: Option<Bounds> = None;
        let mut y: u32 = 0;
        while y < self.height
            invariant
                y <= self.height,
                self.well_formed(),
                self.encloses_content_before(found, 0, y as int),
            decreases self.height - y,
        {
            let mut x: u32 = 0;
            while x < self.width
                invariant
                    x <= self.width,
                    y < self.height,
                    self.well_formed(),
                    self.encloses_content_before(found, x as int, y as int),
                decreases self.width - x,
            {
                let pixel = self.get_pixel(x, y);
                let ghost before = found;
                if pixel.a > 0 {
                    found = match found {
                        None => Some(Bounds { min_x: x, min_y: y, max_x: x, max_y: y }),
                        Some(bounds) => Some(
                            Bounds {
                                min_x: if x < bounds.min_x {
                                    x
                                } else {
                                    bounds.min_x
                                },
                                min_y: bounds.min_y,
                                max_x: if x > bounds.max_x {
                                    x
                                } else {
                                    bounds.max_x
                                },
                                max_y: y,
                            },
                        ),
                    };
                }
                proof {
                    assert(self.at(x as int, y as int) == pixel);
                    self.lemma_wider_bounds(before, found, x, y);
                }
                x = x + 1;
            }
            y = y + 1;
        }
        found
    }

    /// Bounds that were widened to a visible pixel enclose it too.
    proof fn lemma_wider_bounds(
        &self,
        before: Option<Bounds>,
        after: Option<Bounds>,
        x: u32,
        y: u32,
    )
        requires
            self.has(x as int, y as int),
            self.encloses_content_before(before, x as int, y as int),
            if self.at(x as int, y as int).a > 0 {
                match before {
                    None => after == Some(Bounds { min_x: x, min_y: y, max_x: x, max_y: y }),
                    Some(bounds) => after == Some(
                        Bounds {
                            min_x: if x < bounds.min_x {
                                x
                            } else {
                                bounds.min_x
                            },
                            min_y: bounds.min_y,
                            max_x: if x > bounds.max_x {
                                x
                            } else {
                                bounds.max_x
                            },
                            max_y: y,
                        },
                    ),
                }
            } else {
                after == before
            },
        ensures
            self.encloses_content_before(after, x + 1, y as int),
    {
        if self.at(x as int, y as int).a > 0 {
            let bounds = after.unwrap();
            match before {
                None => {
                    assert(self.has(bounds.min_x as int, y as int));
                    assert(self.at(bounds.min_x as int, y as int).a > 0);
                    assert(self.at(x as int, bounds.min_y as int).a > 0);
                    assert forall|px: int, py: int|
                        self.has(px, py) && (py < y || (py == y && px < x + 1)) && (
                        #[trigger] self.at(px, py)).a > 0 implies bounds.min_x <= px <= bounds.max_x
                        && bounds.min_y <= py <= bounds.max_y by {
                        if py < y || px < x {
                            assert(self.at(px, py).a == 0);
                        }
                    }
                },
                Some(old_bounds) => {
                    let left = choose|py: int|
                        self.has(old_bounds.min_x as int, py) && (#[trigger] self.at(
                            old_bounds.min_x as int,
                            py,
                        )).a > 0;
                    let right = choose|py: int|
                        self.has(old_bounds.max_x as int, py) && (#[trigger] self.at(
                            old_bounds.max_x as int,
                            py,
                        )).a > 0;
                    assert(self.at(bounds.min_x as int, if x < old_bounds.min_x {
                        y as int
                    } else {
                        left
                    }).a > 0);
                    assert(self.at(bounds.max_x as int, if x > old_bounds.max_x {
                        y as int
                    } else {
                        right
                    }).a > 0);
                    assert(self.at(x as int, bounds.max_y as int).a > 0);
                    assert forall|px: int, py: int|
                        self.has(px, py) && (py < y || (py == y && px < x + 1)) && (
                        #[trigger] self.at(px, py)).a > 0 implies bounds.min_x <= px <= bounds.max_x
                        && bounds.min_y <= py <= bounds.max_y by {}
                },
            }
        }
    }

    /// The bounds while they are being looked for: they enclose the visible
    /// pixels before column `x` of line `y`, line by line.
    spec fn encloses_content_before(&self, found: Option<Bounds>, x: int, y: int) -> bool {
        match found {
            None => forall|px: int, py: int|
                self.has(px, py) && (py < y || (py == y && px < x)) ==> (#[trigger] self.at(
                    px,
                    py,
                )).a == 0,
            Some(bounds) => {
                &&& forall|px: int, py: int|
                    self.has(px, py) && (py < y || (py == y && px < x)) && (#[trigger] self.at(
                        px,
                        py,
                    )).a > 0 ==> bounds.min_x <= px <= bounds.max_x && bounds.min_y <= py
                        <= bounds.max_y
                &&& bounds.min_y <= bounds.max_y
                &&& bounds.max_y < y || (bounds.max_y == y && 0 < x)
                &&& exists|py: int|
                    self.has(bounds.min_x as int, py) && (#[trigger] self.at(
                        bounds.min_x as int,
                        py,
                    )).a > 0
                &&& exists|py: int|
                    self.has(bounds.max_x as int, py) && (#[trigger] self.at(
                        bounds.max_x as int,
                        py,
                    )).a > 0
                &&& exists|px: int|
                    self.has(px, bounds.min_y as int) && (#[trigger] self.at(
                        px,
                        bounds.min_y as int,
                    )).a > 0
                &&& exists|px: int|
                    self.has(px, bounds.max_y as int) && (#[trigger] self.at(
                        px,
                        bounds.max_y as int,
                    )).a > 0
            },
        }
    }

    /// The part of the picture that lies in the rectangle.
    pub fn cropped(&self, crop: Crop) -> (cut: Bitmap)
        requires
            self.well_formed(),
            self.contains_crop(crop),
        ensures
            self.crops_to(crop, &cut),
    {
        let mut pixels: Vec<Rgba> = Vec::new();
        let mut y: u32 = 0;
        proof {
            assert(0 * crop.width == 0) by (nonlinear_arith);
        }
        while y < crop.height
            invariant
                y <= crop.height,
                self.well_formed(),
                self.contains_crop(crop),
                pixels@.len() == y * crop.width,
                forall|px: int, py: int|
                    0 <= px < crop.width && 0 <= py < y ==> #[trigger] pixels@[py * crop.width + px]
                        == self.at(px + crop.x, py + crop.y),
            decreases crop.height - y,
        {
            let mut x: u32 = 0;
            while x < crop.width
                invariant
                    x <= crop.width,
                    y < crop.height,
                    self.well_formed(),
                    self.contains_crop(crop),
                    pixels@.len() == y * crop.width + x,
                    forall|px: int, py: int|
                        0 <= px < crop.width && 0 <= py && (py < y || (py == y && px < x))
                            ==> #[trigger] pixels@[py * crop.width + px] == self.at(
                            px + crop.x,
                            py + crop.y,
                        ),
                decreases crop.width - x,
            {
                let ghost before = pixels@;
                pixels.push(self.get_pixel(crop.x + x, crop.y + y));
                proof {
                    assert forall|px: int, py: int|
                        0 <= px < crop.width && 0 <= py && (py < y || (py == y && px < x
                            + 1)) implies #[trigger] pixels@[py * crop.width + px] == self.at(
                        px + crop.x,
                        py + crop.y,
                    ) by {
                        if py < y || px < x {
                            assert(py * crop.width + px < y * crop.width + x) by (nonlinear_arith)
                                requires
                                    0 <= px < crop.width,
                                    0 <= x,
                                    py < y || (py == y && px < x),
                            ;
                            assert(0 <= py * crop.width) by (nonlinear_arith)
                                requires
                                    0 <= py,
                            ;
                            assert(pixels@[py * crop.width + px] == before[py * crop.width + px]);
                        }
                    }
                }
                x = x + 1;
            }
            proof {
                assert((y + 1) * crop.width == y * crop.width + crop.width) by (nonlinear_arith);
            }
            y = y + 1;
        }
        proof {
            assert(crop.height * crop.width == crop.width * crop.height) by (nonlinear_arith);
        }
        Bitmap { width: crop.width, height: crop.height, pixels }
    }

    /// Cuts off the transparent margin, up to the padding.
    pub fn trim(self) -> (trimmed: Trimmed)
        requires
            self.well_formed(),
        ensures
            match trimmed.crop {
                Some(crop) => {
                    &&& self.trims_by(crop)
                    &&& self.contains_crop(crop)
                    &&& self.crops_to(crop, &trimmed.bitmap)
                },
                None => self.is_trim() && trimmed.bitmap == self,
            },
    {
        match self.content_bounds() {
            Some(bounds) => {
                proof {
                    assert(bounds.max_x < self.width && bounds.max_y < self.height && bounds.min_x
                        <= bounds.max_x && bounds.min_y <= bounds.max_y) by {
                        let y1 = choose|y1: int|
                            self.has(bounds.min_x as int, y1) && (#[trigger] self.at(
                                bounds.min_x as int,
                                y1,
                            )).a > 0;
                        assert(self.at(bounds.min_x as int, y1).a > 0);
                    }
                }
                if bounds.min_x > 0 || bounds.min_y > 0 || bounds.max_x < self.width - 1
                    || bounds.max_y < self.height - 1 {
                    let x: u32 = if bounds.min_x < TRIM_PADDING {
                        0
                    } else {
                        bounds.min_x - TRIM_PADDING
                    };
                    let y: u32 = if bounds.min_y < TRIM_PADDING {
                        0
                    } else {
                        bounds.min_y - TRIM_PADDING
                    };
                    let right: u32 = if self.width - 1 - bounds.max_x > TRIM_PADDING {
                        bounds.max_x + TRIM_PADDING
                    } else {
                        self.width - 1
                    };
                    let bottom: u32 = if self.height - 1 - bounds.max_y > TRIM_PADDING {
                        bounds.max_y + TRIM_PADDING
                    } else {
                        self.height - 1
                    };
                    let crop = Crop { x, y, width: right - x + 1, height: bottom - y + 1 };
                    assert(is_padded(&self, bounds, crop));
                    let bitmap = self.cropped(crop);
                    Trimmed { bitmap, crop: Some(crop) }
                } else {
                    Trimmed { bitmap: self, crop: None }
                }
            },
            None => Trimmed { bitmap: self, crop: None },
        }
    }
}

/// A picture has only one set of bounds.
pub proof fn lemma_bounds_are_unique(bitmap: &Bitmap, one: Bounds, other: Bounds)
    requires
        bitmap.encloses_content(one),
        bitmap.encloses_content(other),
    ensures
        one == other,
{
    let a = choose|y: int|
        bitmap.has(one.min_x as int, y) && (#[trigger] bitmap.at(one.min_x as int, y)).a > 0;
    let b = choose|y: int|
        bitmap.has(one.max_x as int, y) && (#[trigger] bitmap.at(one.max_x as int, y)).a > 0;
    let c = choose|x: int|
        bitmap.has(x, one.min_y as int) && (#[trigger] bitmap.at(x, one.min_y as int)).a > 0;
    let d = choose|x: int|
        bitmap.has(x, one.max_y as int) && (#[trigger] bitmap.at(x, one.max_y as int)).a > 0;
    let e = choose|y: int|
        bitmap.has(other.min_x as int, y) && (#[trigger] bitmap.at(other.min_x as int, y)).a > 0;
    let f = choose|y: int|
        bitmap.has(other.max_x as int, y) && (#[trigger] bitmap.at(other.max_x as int, y)).a > 0;
    let g = choose|x: int|
        bitmap.has(x, other.min_y as int) && (#[trigger] bitmap.at(x, other.min_y as int)).a > 0;
    let h = choose|x: int|
        bitmap.has(x, other.max_y as int) && (#[trigger] bitmap.at(x, other.max_y as int)).a > 0;
    assert(bitmap.at(one.min_x as int, a).a > 0);
    assert(bitmap.at(one.max_x as int, b).a > 0);
    assert(bitmap.at(c, one.min_y as int).a > 0);
    assert(bitmap.at(d, one.max_y as int).a > 0);
    assert(bitmap.at(other.min_x as int, e).a > 0);
    assert(bitmap.at(other.max_x as int, f).a > 0);
    assert(bitmap.at(g, other.min_y as int).a > 0);
    assert(bitmap.at(h, other.max_y as int).a > 0);
}

/// Trimming cuts only transparent pixels: every visible one is in the trimmed
/// picture, at its old place relative to the cut.
pub proof fn law_trimming_keeps_content(bitmap: &Bitmap, crop: Crop, cut: &Bitmap, x: int, y: int)
    requires
        bitmap.trims_by(crop),
        bitmap.crops_to(crop, cut),
        bitmap.has(x, y),
        bitmap.at(x, y).a > 0,
    ensures
        cut.has(x - crop.x, y - crop.y),
        cut.at(x - crop.x, y - crop.y) == bitmap.at(x, y),
{
    let bounds = choose|bounds: Bounds| #[trigger]
        bitmap.encloses_content(bounds) && has_margin(bitmap, bounds) && is_padded(
            bitmap,
            bounds,
            crop,
        );
    assert(cut.has(x - crop.x, y - crop.y));
    let _ = cut.at(x - crop.x, y - crop.y);
}

/// A picture is either trimmed or left as it is, and the rectangle is
/// determined.
pub proof fn law_trimming_is_determined(bitmap: &Bitmap, one: Crop, other: Crop)
    requires
        bitmap.trims_by(one),
    ensures
        !bitmap.is_trim(),
        bitmap.trims_by(other) ==> one == other,
{
    let bounds = choose|bounds: Bounds| #[trigger]
        bitmap.encloses_content(bounds) && has_margin(bitmap, bounds) && is_padded(
            bitmap,
            bounds,
            one,
        );
    assert(bitmap.has_content()) by {
        let y1 = choose|y1: int|
            bitmap.has(bounds.min_x as int, y1) && (#[trigger] bitmap.at(
                bounds.min_x as int,
                y1,
            )).a > 0;
        assert(bitmap.at(bounds.min_x as int, y1).a > 0);
    }
    assert forall|b: Bounds| #[trigger] bitmap.encloses_content(b) implies b == bounds by {
        lemma_bounds_are_unique(bitmap, b, bounds);
    }
}

/// Outlining touches no pixel that is more than faintly visible, and a second
/// outline adds nothing to the first.
pub proof fn law_outline_is_idempotent(bitmap: &Bitmap, outlined: &Bitmap, again: &Bitmap)
    requires
        bitmap.well_formed(),
        bitmap.outlines_to(outlined),
        outlined.outlines_to(again),
    ensures
        forall|x: int, y: int|
            bitmap.has(x, y) && bitmap.at(x, y).a >= FAINT_ALPHA ==> #[trigger] outlined.at(x, y)
                == bitmap.at(x, y),
        again.pixels@ == outlined.pixels@,
{
    assert forall|x: int, y: int| bitmap.has(x, y) implies #[trigger] again.at(x, y)
        == outlined.at(x, y) by {
        if outlined.at(x, y).a < FAINT_ALPHA && outlined.beside_solid(x, y) {
            let (sx, sy) = choose|sx: int, sy: int|
                outlined.has(sx, sy) && adjacent(sx, sy, x, y) && (#[trigger] outlined.at(
                    sx,
                    sy,
                )).a > SOLID_ALPHA;
            assert(bitmap.at(sx, sy).a > SOLID_ALPHA);
            assert(bitmap.beside_solid(x, y));
        }
    }
    lemma_same_places(again, outlined);
}

/// Well-formed pictures that agree at every place look the same.
proof fn lemma_same_places(one: &Bitmap, other: &Bitmap)
    requires
        one.well_formed(),
        other.well_formed(),
        one.same_size(other),
        forall|x: int, y: int| one.has(x, y) ==> #[trigger] one.at(x, y) == other.at(x, y),
    ensures
        one.same_picture(other),
{
    assert forall|i: int| 0 <= i < one.pixels@.len() implies one.pixels@[i]
        == other.pixels@[i] by {
        lemma_place(one.width as int, one.height as int, i);
        let x = i % one.width as int;
        let y = i / one.width as int;
        assert(one.at(x, y) == other.at(x, y));
    }
    assert(one.pixels@ =~= other.pixels@);
}

/// Pictures that look the same have outlines that look the same.
pub proof fn lemma_outline_is_determined(
    one: &Bitmap,
    other: &Bitmap,
    one_outlined: &Bitmap,
    other_outlined: &Bitmap,
)
    requires
        one.same_picture(other),
        one.outlines_to(one_outlined),
        other.outlines_to(other_outlined),
    ensures
        one_outlined.same_picture(other_outlined),
{
    assert forall|x: int, y: int| one_outlined.has(x, y) implies #[trigger] one_outlined.at(x, y)
        == other_outlined.at(x, y) by {
        assert(one.at(x, y) == other.at(x, y));
        assert(one.beside_solid(x, y) == other.beside_solid(x, y)) by {
            assert forall|sx: int, sy: int| #[trigger] one.at(sx, sy) == other.at(sx, sy) by {}
            if one.beside_solid(x, y) {
                let (sx, sy) = choose|sx: int, sy: int|
                    one.has(sx, sy) && adjacent(sx, sy, x, y) && (#[trigger] one.at(sx, sy)).a
                        > SOLID_ALPHA;
                assert(other.at(sx, sy).a > SOLID_ALPHA);
            }
            if other.beside_solid(x, y) {
                let (sx, sy) = choose|sx: int, sy: int|
                    other.has(sx, sy) && adjacent(sx, sy, x, y) && (#[trigger] other.at(sx, sy)).a
                        > SOLID_ALPHA;
                assert(one.at(sx, sy).a > SOLID_ALPHA);
            }
        }
    }
    lemma_same_places(one_outlined, other_outlined);
}

/// What is cut out of pictures that look the same looks the same.
pub proof fn lemma_cut_is_determined(
    one: &Bitmap,
    other: &Bitmap,
    crop: Crop,
    one_cut: &Bitmap,
    other_cut: &Bitmap,
)
    requires
        one.same_picture(other),
        one.crops_to(crop, one_cut),
        other.crops_to(crop, other_cut),
    ensures
        one_cut.same_picture(other_cut),
{
    assert forall|x: int, y: int| one_cut.has(x, y) implies #[trigger] one_cut.at(x, y)
        == other_cut.at(x, y) by {}
    lemma_same_places(one_cut, other_cut);
}

/// Pictures that look the same have the same bounds.
proof fn lemma_same_bounds(one: &Bitmap, other: &Bitmap, bounds: Bounds)
    requires
        one.same_picture(other),
        one.encloses_content(bounds),
    ensures
        other.encloses_content(bounds),
{
    assert forall|x: int, y: int| #[trigger] other.at(x, y) == one.at(x, y) by {}
    let a = choose|y: int|
        one.has(bounds.min_x as int, y) && (#[trigger] one.at(bounds.min_x as int, y)).a > 0;
    let b = choose|y: int|
        one.has(bounds.max_x as int, y) && (#[trigger] one.at(bounds.max_x as int, y)).a > 0;
    let c = choose|x: int|
        one.has(x, bounds.min_y as int) && (#[trigger] one.at(x, bounds.min_y as int)).a > 0;
    let d = choose|x: int|
        one.has(x, bounds.max_y as int) && (#[trigger] one.at(x, bounds.max_y as int)).a > 0;
    assert(other.at(bounds.min_x as int, a).a > 0);
    assert(other.at(bounds.max_x as int, b).a > 0);
    assert(other.at(c, bounds.min_y as int).a > 0);
    assert(other.at(d, bounds.max_y as int).a > 0);
}

/// Pictures that look the same are trimmed in the same way.
pub proof fn lemma_trim_goes_by_looks(one: &Bitmap, other: &Bitmap)
    requires
        one.same_picture(other),
    ensures
        one.is_trim() ==> other.is_trim(),
        forall|crop: Crop| #[trigger] one.trims_by(crop) ==> other.trims_by(crop),
{
    assert forall|bounds: Bounds| #[trigger] one.encloses_content(bounds) implies
        other.encloses_content(bounds) by {
        lemma_same_bounds(one, other, bounds);
    }
    if other.has_content() {
        let (x, y) = choose|x: int, y: int| other.has(x, y) && (#[trigger] other.at(x, y)).a > 0;
        assert(one.at(x, y).a > 0);
    }
    assert forall|crop: Crop| #[trigger] one.trims_by(crop) implies other.trims_by(crop) by {
        let bounds = choose|bounds: Bounds| #[trigger]
            one.encloses_content(bounds) && has_margin(one, bounds) && is_padded(one, bounds, crop);
        assert(other.encloses_content(bounds));
    }
}

/// Every index belongs to a place in the picture.
proof fn lemma_place(width: int, height: int, index: int)
    requires
        0 <= index < width * height,
        0 <= width,
        0 <= height,
    ensures
        0 <= index % width < width,
        0 <= index / width < height,
        (index / width) * width + index % width == index,
{
    assert(0 < width) by (nonlinear_arith)
        requires
            0 <= index < width * height,
            0 <= width,
            0 <= height,
    ;
    vstd::arithmetic::div_mod::lemma_fundamental_div_mod(index, width);
    vstd::arithmetic::div_mod::lemma_mod_bound(index, width);
    vstd::arithmetic::div_mod::lemma_div_pos_is_pos(index, width);
    assert(index / width < height) by (nonlinear_arith)
        requires
            index == width * (index / width) + index % width,
            0 <= index % width,
            index < width * height,
            0 < width,
    ;
    assert((index / width) * width == width * (index / width)) by (nonlinear_arith);
}

/// The pixels of a picture whose bytes stand blue first have exactly these bytes as
/// their colours and as their alpha, and nothing is added to them.
pub proof fn law_pixels_hold_the_bytes(bgra: Seq<u8>, i: int)
    requires
        bgra.len() % 4 == 0,
        0 <= 4 * i < bgra.len(),
    ensures
        4 * pixels_of_bgra(bgra).len() == bgra.len(),
        pixels_of_bgra(bgra)[i].b == bgra[4 * i],
        pixels_of_bgra(bgra)[i].g == bgra[4 * i + 1],
        pixels_of_bgra(bgra)[i].r == bgra[4 * i + 2],
        pixels_of_bgra(bgra)[i].a == bgra[4 * i + 3],
{
}

/// Every pixel is written as four bytes: red, green, blue and alpha.
pub proof fn law_bytes_hold_the_pixels(pixels: Seq<Rgba>, i: int)
    requires
        0 <= i < pixels.len(),
    ensures
        bytes_of(pixels).len() == 4 * pixels.len(),
        bytes_of(pixels)[4 * i] == pixels[i].r,
        bytes_of(pixels)[4 * i + 1] == pixels[i].g,
        bytes_of(pixels)[4 * i + 2] == pixels[i].b,
        bytes_of(pixels)[4 * i + 3] == pixels[i].a,
{
}

/// Reading a picture blue first and writing it red first only exchanges the first
/// and the third byte of every pixel. Doing so twice gives back the bytes.
pub proof fn law_blue_and_red_change_places(bgra: Seq<u8>)
    requires
        bgra.len() % 4 == 0,
    ensures
        bytes_of(pixels_of_bgra(bgra)).len() == bgra.len(),
        forall|i: int|
            0 <= i < bgra.len() ==> #[trigger] bytes_of(pixels_of_bgra(bgra))[i] == if i % 4 == 0 {
                bgra[i + 2]
            } else if i % 4 == 2 {
                bgra[i - 2]
            } else {
                bgra[i]
            },
        bytes_of(pixels_of_bgra(bytes_of(pixels_of_bgra(bgra)))) == bgra,
{
    let swapped = bytes_of(pixels_of_bgra(bgra));
    assert(bytes_of(pixels_of_bgra(swapped)) =~= bgra);
}

/// A pixel with an alpha under 100 becomes black with an alpha of 100 if one of
/// the eight pixels around it has an alpha over 200. Every other pixel stays as it
/// is.
pub proof fn law_outline_surrounds_solid_pixels(
    bitmap: &Bitmap,
    outlined: &Bitmap,
    x: int,
    y: int,
)
    requires
        bitmap.outlines_to(outlined),
        0 <= x < bitmap.width,
        0 <= y < bitmap.height,
    ensures
        outlined.width == bitmap.width,
        outlined.height == bitmap.height,
        outlined.pixels@.len() == outlined.width * outlined.height,
        bitmap.at(x, y).a >= 100 ==> outlined.at(x, y) == bitmap.at(x, y),
        bitmap.at(x, y).a < 100 ==> if exists|dx: int, dy: int|
            -1 <= dx <= 1 && -1 <= dy <= 1 && (dx != 0 || dy != 0) && 0 <= x + dx < bitmap.width
                && 0 <= y + dy < bitmap.height && (#[trigger] bitmap.at(x + dx, y + dy)).a > 200 {
            outlined.at(x, y) == (Rgba { r: 0, g: 0, b: 0, a: 100 })
        } else {
            outlined.at(x, y) == bitmap.at(x, y)
        },
{
    if bitmap.beside_solid(x, y) {
        let (sx, sy) = choose|sx: int, sy: int|
            bitmap.has(sx, sy) && adjacent(sx, sy, x, y) && (#[trigger] bitmap.at(sx, sy)).a
                > SOLID_ALPHA;
        assert(bitmap.at(x + (sx - x), y + (sy - y)).a > 200);
    }
    if exists|dx: int, dy: int|
        -1 <= dx <= 1 && -1 <= dy <= 1 && (dx != 0 || dy != 0) && 0 <= x + dx < bitmap.width && 0
            <= y + dy < bitmap.height && (#[trigger] bitmap.at(x + dx, y + dy)).a > 200 {
        let (dx, dy) = choose|dx: int, dy: int|
            -1 <= dx <= 1 && -1 <= dy <= 1 && (dx != 0 || dy != 0) && 0 <= x + dx < bitmap.width
                && 0 <= y + dy < bitmap.height && (#[trigger] bitmap.at(x + dx, y + dy)).a > 200;
        assert(bitmap.has(x + dx, y + dy) && adjacent(x + dx, y + dy, x, y));
        assert(bitmap.beside_solid(x, y));
    }
}

/// A visible pixel in this column, and in this line.
pub open spec fn seen_in_column(bitmap: &Bitmap, x: int) -> bool {
    exists|y: int| 0 <= y < bitmap.height && (#[trigger] bitmap.at(x, y)).a > 0
}

pub open spec fn seen_in_line(bitmap: &Bitmap, y: int) -> bool {
    exists|x: int| 0 <= x < bitmap.width && (#[trigger] bitmap.at(x, y)).a > 0
}

/// A picture is trimmed if something of it is visible, but not in its first or
/// last column, or not in its first or last line.
pub proof fn law_margin_is_trimmed(bitmap: &Bitmap)
    ensures
        (exists|crop: Crop| bitmap.trims_by(crop)) ==> {
            &&& exists|x: int, y: int|
                0 <= x < bitmap.width && 0 <= y < bitmap.height && (#[trigger] bitmap.at(x, y)).a
                    > 0
            &&& !seen_in_column(bitmap, 0) || !seen_in_column(bitmap, bitmap.width - 1)
                || !seen_in_line(bitmap, 0) || !seen_in_line(bitmap, bitmap.height - 1)
        },
        bitmap.is_trim() ==> (forall|x: int, y: int|
            0 <= x < bitmap.width && 0 <= y < bitmap.height ==> (#[trigger] bitmap.at(x, y)).a == 0)
            || (seen_in_column(bitmap, 0) && seen_in_column(bitmap, bitmap.width - 1)
            && seen_in_line(bitmap, 0) && seen_in_line(bitmap, bitmap.height - 1)),
{
    assert forall|bounds: Bounds| #[trigger] bitmap.encloses_content(bounds) implies {
        &&& bitmap.has_content()
        &&& bounds.min_x == 0 <==> seen_in_column(bitmap, 0)
        &&& bounds.min_y == 0 <==> seen_in_line(bitmap, 0)
        &&& bounds.max_x == bitmap.width - 1 <==> seen_in_column(bitmap, bitmap.width - 1)
        &&& bounds.max_y == bitmap.height - 1 <==> seen_in_line(bitmap, bitmap.height - 1)
    } by {
        lemma_bounds_are_seen(bitmap, bounds);
    }
    if bitmap.is_trim() && bitmap.has_content() {
        let bounds = choose|bounds: Bounds| #[trigger]
            bitmap.encloses_content(bounds) && !has_margin(bitmap, bounds);
        lemma_bounds_are_seen(bitmap, bounds);
    }
}

/// What the bounds of the visible pixels say about the edges of a picture.
proof fn lemma_bounds_are_seen(bitmap: &Bitmap, bounds: Bounds)
    requires
        bitmap.encloses_content(bounds),
    ensures
        bitmap.has_content(),
        bounds.min_x <= bounds.max_x < bitmap.width,
        bounds.min_y <= bounds.max_y < bitmap.height,
        seen_in_column(bitmap, bounds.min_x as int),
        seen_in_column(bitmap, bounds.max_x as int),
        seen_in_line(bitmap, bounds.min_y as int),
        seen_in_line(bitmap, bounds.max_y as int),
        bounds.min_x == 0 <==> seen_in_column(bitmap, 0),
        bounds.min_y == 0 <==> seen_in_line(bitmap, 0),
        bounds.max_x == bitmap.width - 1 <==> seen_in_column(bitmap, bitmap.width - 1),
        bounds.max_y == bitmap.height - 1 <==> seen_in_line(bitmap, bitmap.height - 1),
{
    let a = choose|y: int|
        bitmap.has(bounds.min_x as int, y) && (#[trigger] bitmap.at(bounds.min_x as int, y)).a > 0;
    let b = choose|y: int|
        bitmap.has(bounds.max_x as int, y) && (#[trigger] bitmap.at(bounds.max_x as int, y)).a > 0;
    let c = choose|x: int|
        bitmap.has(x, bounds.min_y as int) && (#[trigger] bitmap.at(x, bounds.min_y as int)).a > 0;
    let d = choose|x: int|
        bitmap.has(x, bounds.max_y as int) && (#[trigger] bitmap.at(x, bounds.max_y as int)).a > 0;
    assert(bitmap.at(bounds.min_x as int, a).a > 0);
    assert(bitmap.at(bounds.max_x as int, b).a > 0);
    assert(bitmap.at(c, bounds.min_y as int).a > 0);
    assert(bitmap.at(d, bounds.max_y as int).a > 0);
    assert forall|x: int, y: int|
        0 <= x < bitmap.width && 0 <= y < bitmap.height && (#[trigger] bitmap.at(x, y)).a
            > 0 implies bounds.min_x <= x <= bounds.max_x && bounds.min_y <= y <= bounds.max_y by {
        assert(bitmap.has(x, y));
    }
}

/// A trimmed picture keeps two columns and two lines around what is visible, as far
/// as the picture reaches: on every side the cut lies exactly two pixels outside
/// the outermost visible one, or at the edge if that is closer.
pub proof fn law_trimming_leaves_two_pixels(bitmap: &Bitmap, crop: Crop)
    requires
        bitmap.trims_by(crop),
    ensures
        crop.x + crop.width <= bitmap.width,
        crop.y + crop.height <= bitmap.height,
        forall|x: int, y: int|
            0 <= x < bitmap.width && 0 <= y < bitmap.height && (#[trigger] bitmap.at(x, y)).a > 0
                ==> (crop.x == 0 || crop.x + 2 <= x) && (crop.x + crop.width == bitmap.width || x + 2
                < crop.x + crop.width) && (crop.y == 0 || crop.y + 2 <= y) && (crop.y + crop.height
                == bitmap.height || y + 2 < crop.y + crop.height),
        exists|x: int|
            0 <= x <= crop.x + 2 && x < bitmap.width && #[trigger] seen_in_column(bitmap, x),
        exists|y: int|
            0 <= y <= crop.y + 2 && y < bitmap.height && #[trigger] seen_in_line(bitmap, y),
        exists|x: int|
            0 <= x < bitmap.width && crop.x + crop.width <= x + 3 && #[trigger] seen_in_column(
                bitmap,
                x,
            ),
        exists|y: int|
            0 <= y < bitmap.height && crop.y + crop.height <= y + 3 && #[trigger] seen_in_line(
                bitmap,
                y,
            ),
{
    let bounds = choose|bounds: Bounds| #[trigger]
        bitmap.encloses_content(bounds) && has_margin(bitmap, bounds) && is_padded(
            bitmap,
            bounds,
            crop,
        );
    lemma_bounds_are_seen(bitmap, bounds);
    assert forall|x: int, y: int|
        0 <= x < bitmap.width && 0 <= y < bitmap.height && (#[trigger] bitmap.at(x, y)).a
            > 0 implies bounds.min_x <= x <= bounds.max_x && bounds.min_y <= y <= bounds.max_y by {
        assert(bitmap.has(x, y));
    }
}

/// What is cut out of a picture keeps every pixel: column `x` of line `y` of the cut
/// is that column and line of the picture, counted from the corner of the rectangle.
pub proof fn law_cut_keeps_pixels(bitmap: &Bitmap, crop: Crop, cut: &Bitmap, x: int, y: int)
    requires
        bitmap.crops_to(crop, cut),
        0 <= x < crop.width,
        0 <= y < crop.height,
    ensures
        cut.width == crop.width,
        cut.height == crop.height,
        cut.pixels@.len() == crop.width * crop.height,
        cut.pixels@[y * crop.width + x] == bitmap.pixels@[(crop.y + y) * bitmap.width + (crop.x
            + x)],
{
    assert(cut.at(x, y) == bitmap.at(x + crop.x, y + crop.y));
}

} // verus!
