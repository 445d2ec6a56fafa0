//! How a TIFF file lays out its pixels, as far as it decides whether the file
//! can be decoded.

use vstd::prelude::*;

verus! {

/// The fields that say how many pixels a picture has in a row and in a column.
pub const IMAGE_WIDTH: u16 = 256;

pub const IMAGE_LENGTH: u16 = 257;

/// The field that says how pixels are compressed.
pub const COMPRESSION: u16 = 259;

/// The field that says which colours the samples of a pixel stand for.
pub const PHOTOMETRIC_INTERPRETATION: u16 = 262;

/// The field that says how many samples a pixel has.
pub const SAMPLES_PER_PIXEL: u16 = 277;

/// The field that says whether the samples of a pixel stand together.
pub const PLANAR_CONFIGURATION: u16 = 284;

/// The field that says how many pixels a tile has in a row.
pub const TILE_WIDTH: u16 = 322;

/// The field that says where the tiles stand, in a file that keeps its pixels in
/// tiles.
pub const TILE_OFFSETS: u16 = 324;

/// Pixels that are compressed with the method of Lempel, Ziv and Welch.
pub const LZW_COMPRESSION: u64 = 5;

/// Pixels that are compressed like a JPEG file.
pub const JPEG_COMPRESSION: u64 = 7;

/// Every sample of a pixel stands in a plane of its own.
pub const SEPARATE_PLANES: u64 = 2;

/// Cyan, magenta, yellow and black.
pub const CMYK: u64 = 5;

/// The samples of a pixel in these colours.
pub const CMYK_SAMPLES: u64 = 4;

/// With fewer rows than this, the parts of four planes can be counted in four
/// bytes.
pub const MAX_ROWS: u64 = 0x4000_0000;

/// The types of a number of one, two, four and eight bytes, and those of a place
/// in the file, of four and eight bytes.
pub const BYTE_TYPE: u16 = 1;

pub const SHORT_TYPE: u16 = 3;

pub const LONG_TYPE: u16 = 4;

pub const IFD_TYPE: u16 = 13;

pub const LONG8_TYPE: u16 = 16;

pub const IFD8_TYPE: u16 = 18;

/// Bytes of an entry in the directory of a file.
pub const ENTRY_LEN: u64 = 12;

/// What a field holds.
#[derive(Clone, Copy, PartialEq, Eq, Structural, Debug)]
pub enum Field {
    /// The file does not have the field.
    Absent,
    /// Not a single number.
    Other,
    Number(u64),
}

/// The number in the two bytes from `at` on.
pub open spec fn u16_at(file: Seq<u8>, at: int, big_endian: bool) -> int {
    if big_endian {
        0x100 * file[at] + file[at + 1]
    } else {
        file[at] + 0x100 * file[at + 1]
    }
}

/// The number in the four bytes from `at` on.
pub open spec fn u32_at(file: Seq<u8>, at: int, big_endian: bool) -> int {
    if big_endian {
        0x1_0000 * u16_at(file, at, true) + u16_at(file, at + 2, true)
    } else {
        u16_at(file, at, false) + 0x1_0000 * u16_at(file, at + 2, false)
    }
}

/// The number in the eight bytes from `at` on.
pub open spec fn u64_at(file: Seq<u8>, at: int, big_endian: bool) -> int {
    if big_endian {
        0x1_0000_0000 * u32_at(file, at, true) + u32_at(file, at + 4, true)
    } else {
        u32_at(file, at, false) + 0x1_0000_0000 * u32_at(file, at + 4, false)
    }
}

/// Whether the most significant byte of a number comes first.
pub open spec fn is_big_endian(file: Seq<u8>) -> bool {
    file[0] == 0x4d
}

/// Whether the file has the header of a TIFF file: `II` or `MM`, the number
/// 42, and the place of the directory.
pub open spec fn is_tiff(file: Seq<u8>) -> bool {
    &&& file.len() >= 8
    &&& file[0] == file[1]
    &&& file[0] == 0x49 || file[0] == 0x4d
    &&& u16_at(file, 2, is_big_endian(file)) == 42
}

/// Where the directory stands.
pub open spec fn directory(file: Seq<u8>) -> int {
    u32_at(file, 4, is_big_endian(file))
}

/// How many entries the directory has.
pub open spec fn entry_count(file: Seq<u8>) -> nat {
    if directory(file) + 2 <= file.len() {
        u16_at(file, directory(file), is_big_endian(file)) as nat
    } else {
        0
    }
}

/// Where the entry number `i` stands.
pub open spec fn entry_at(file: Seq<u8>, i: int) -> int {
    directory(file) + 2 + ENTRY_LEN * i
}

/// Whether a type is one of those that the format has. Entries of another type
/// are passed over.
pub open spec fn is_known_type(of_type: int) -> bool {
    1 <= of_type <= 13 || 16 <= of_type <= 18
}

/// Whether the entry at `at` is that of a field.
pub open spec fn is_entry_of(file: Seq<u8>, at: int, tag: u16) -> bool {
    &&& at + ENTRY_LEN <= file.len()
    &&& u16_at(file, at, is_big_endian(file)) == tag
    &&& is_known_type(u16_at(file, at + 2, is_big_endian(file)))
}

/// What the entry at `at` holds. A number stands in the entry if there is room
/// for it.
pub open spec fn entry_value(file: Seq<u8>, at: int) -> Field {
    let big_endian = is_big_endian(file);
    let of_type = u16_at(file, at + 2, big_endian);
    if u32_at(file, at + 4, big_endian) != 1 {
        Field::Other
    } else if of_type == BYTE_TYPE {
        Field::Number(file[at + 8] as u64)
    } else if of_type == SHORT_TYPE {
        Field::Number(u16_at(file, at + 8, big_endian) as u64)
    } else if of_type == LONG_TYPE || of_type == IFD_TYPE {
        Field::Number(u32_at(file, at + 8, big_endian) as u64)
    } else if (of_type == LONG8_TYPE || of_type == IFD8_TYPE) && u32_at(file, at + 8, big_endian)
        + 8 <= file.len() {
        Field::Number(u64_at(file, u32_at(file, at + 8, big_endian), big_endian) as u64)
    } else {
        Field::Other
    }
}

/// What the field holds according to the first `n` entries. The last entry
/// counts.
pub open spec fn field_among(file: Seq<u8>, tag: u16, n: nat) -> Field
    decreases n,
{
    if n == 0 {
        Field::Absent
    } else if is_entry_of(file, entry_at(file, n - 1), tag) {
        entry_value(file, entry_at(file, n - 1))
    } else {
        field_among(file, tag, (n - 1) as nat)
    }
}

/// What the field of a TIFF file holds.
pub open spec fn field_value(file: Seq<u8>, tag: u16) -> Field {
    field_among(file, tag, entry_count(file))
}

/// Whether the pixels are in cyan, magenta, yellow and black, in so few rows
/// that the parts of all planes can be counted.
pub open spec fn is_cmyk(file: Seq<u8>) -> bool {
    &&& field_value(file, PHOTOMETRIC_INTERPRETATION) == Field::Number(CMYK)
    &&& field_value(file, SAMPLES_PER_PIXEL) == Field::Number(CMYK_SAMPLES)
    &&& field_value(file, IMAGE_LENGTH) matches Field::Number(rows) && rows < MAX_ROWS
}

/// Whether the file is a TIFF file that keeps several samples in planes of
/// their own, other than those of a CMYK picture.
pub open spec fn has_separate_planes(file: Seq<u8>) -> bool {
    &&& is_tiff(file)
    &&& field_value(file, PLANAR_CONFIGURATION) == Field::Number(SEPARATE_PLANES)
    &&& field_value(file, SAMPLES_PER_PIXEL) matches Field::Number(samples) && samples > 1
    &&& !is_cmyk(file)
}

/// Whether a tile is as wide as the picture.
pub open spec fn has_wide_tiles(file: Seq<u8>) -> bool {
    &&& field_value(file, TILE_WIDTH) is Number
    &&& field_value(file, TILE_WIDTH) == field_value(file, IMAGE_WIDTH)
}

/// Whether the file is a TIFF file with LZW data in tiles, several of which
/// share a row of pixels, or one of which reaches over the end of the row.
pub open spec fn has_lzw_tiles(file: Seq<u8>) -> bool {
    &&& is_tiff(file)
    &&& field_value(file, COMPRESSION) == Field::Number(LZW_COMPRESSION)
    &&& !(field_value(file, TILE_OFFSETS) is Absent)
    &&& !has_wide_tiles(file)
}

/// Whether the file is a TIFF file with JPEG data in it.
pub open spec fn holds_jpeg(file: Seq<u8>) -> bool {
    is_tiff(file) && field_value(file, COMPRESSION) == Field::Number(JPEG_COMPRESSION)
}

fn read_u16(file: &Vec<u8>, at: usize, big_endian: bool) -> (number: u16)
    requires
        at + 2 <= file@.len(),
    ensures
        number == u16_at(file@, at as int, big_endian),
{
    assert(file.len() == file@.len());
    let first: u16 = file[at] as u16;
    let second: u16 = file[at + 1] as u16;
    if big_endian {
        0x100 * first + second
    } else {
        first + 0x100 * second
    }
}

pub(crate) fn read_u32(file: &Vec<u8>, at: usize, big_endian: bool) -> (number: u32)
    requires
        at + 4 <= file@.len(),
    ensures
        number == u32_at(file@, at as int, big_endian),
{
    assert(file.len() == file@.len());
    let first: u32 = read_u16(file, at, big_endian) as u32;
    let second: u32 = read_u16(file, at + 2, big_endian) as u32;
    if big_endian {
        0x1_0000 * first + second
    } else {
        first + 0x1_0000 * second
    }
}

fn read_u64(file: &Vec<u8>, at: usize, big_endian: bool) -> (number: u64)
    requires
        at + 8 <= file@.len(),
    ensures
        number == u64_at(file@, at as int, big_endian),
{
    assert(file.len() == file@.len());
    let first: u64 = read_u32(file, at, big_endian) as u64;
    let second: u64 = read_u32(file, at + 4, big_endian) as u64;
    if big_endian {
        0x1_0000_0000 * first + second
    } else {
        first + 0x1_0000_0000 * second
    }
}

fn read_is_tiff(file: &Vec<u8>) -> (tiff: bool)
    ensures
        tiff == is_tiff(file@),
{
    file.len() >= 8 && file[0] == file[1] && (file[0] == 0x49 || file[0] == 0x4d) && read_u16(
        file,
        2,
        file[0] == 0x4d,
    ) == 42
}

fn read_entry(file: &Vec<u8>, at: usize) -> (value: Field)
    requires
        is_tiff(file@),
        at + ENTRY_LEN <= file@.len(),
    ensures
        value == entry_value(file@, at as int),
{
    assert(file.len() == file@.len());
    let big_endian = file[0] == 0x4d;
    let of_type: u16 = read_u16(file, at + 2, big_endian);
    if read_u32(file, at + 4, big_endian) != 1 {
        Field::Other
    } else if of_type == BYTE_TYPE {
        Field::Number(file[at + 8] as u64)
    } else if of_type == SHORT_TYPE {
        Field::Number(read_u16(file, at + 8, big_endian) as u64)
    } else if of_type == LONG_TYPE || of_type == IFD_TYPE {
        Field::Number(read_u32(file, at + 8, big_endian) as u64)
    } else if of_type == LONG8_TYPE || of_type == IFD8_TYPE {
        let place: u32 = read_u32(file, at + 8, big_endian);
        if place as u64 + 8 <= file.len() as u64 {
            Field::Number(read_u64(file, place as usize, big_endian))
        } else {
            Field::Other
        }
    } else {
        Field::Other
    }
}

fn read_field(file: &Vec<u8>, tag: u16) -> (value: Field)
    requires
        is_tiff(file@),
    ensures
        value == field_value(file@, tag),
{
    let big_endian = file[0] == 0x4d;
    let len: u64 = file.len() as u64;
    let directory: u64 = read_u32(file, 4, big_endian) as u64;
    if directory + 2 > len {
        return Field::Absent;
    }
    let count: u16 = read_u16(file, directory as usize, big_endian);
    let mut value = Field::Absent;
    let mut i: u16 = 0;
    while i < count
        invariant
            is_tiff(file@),
            i <= count,
            len == file@.len() == file.len(),
            directory == self::directory(file@),
            directory <= u32::MAX,
            big_endian == is_big_endian(file@),
            value == field_among(file@, tag, i as nat),
        decreases count - i,
    {
        let at: u64 = directory + 2 + ENTRY_LEN * i as u64;
        if at + ENTRY_LEN <= len {
            let at: usize = at as usize;
            let of_type: u16 = read_u16(file, at + 2, big_endian);
            if read_u16(file, at, big_endian) == tag && ((1 <= of_type && of_type <= 13) || (16
                <= of_type && of_type <= 18)) {
                value = read_entry(file, at);
            }
        }
        i = i + 1;
    }
    value
}

/// Whether the pixels of the file stand as the decoder takes them: it is no
/// TIFF file, or one without separate planes, without JPEG data and without
/// LZW data in tiles. CMYK planes, and tiles as wide as the picture, are taken.
pub fn has_plain_pixels(file: &Vec<u8>) -> (plain: bool)
    ensures
        plain == (!has_separate_planes(file@) && !holds_jpeg(file@) && !has_lzw_tiles(file@)),
{
    if !read_is_tiff(file) {
        return true;
    }
    let samples = read_field(file, SAMPLES_PER_PIXEL);
    let several = match samples {
        Field::Number(samples) => samples > 1,
        _ => false,
    };
    let few_rows = match read_field(file, IMAGE_LENGTH) {
        Field::Number(rows) => rows < MAX_ROWS,
        _ => false,
    };
    let cmyk = read_field(file, PHOTOMETRIC_INTERPRETATION) == Field::Number(CMYK) && samples
        == Field::Number(CMYK_SAMPLES) && few_rows;
    let separate = read_field(file, PLANAR_CONFIGURATION) == Field::Number(SEPARATE_PLANES)
        && several && !cmyk;
    let wide = match read_field(file, TILE_WIDTH) {
        Field::Number(width) => read_field(file, IMAGE_WIDTH) == Field::Number(width),
        _ => false,
    };
    let compression = read_field(file, COMPRESSION);
    let lzw_tiles = compression == Field::Number(LZW_COMPRESSION) && read_field(file, TILE_OFFSETS)
        != Field::Absent && !wide;
    !separate && compression != Field::Number(JPEG_COMPRESSION) && !lzw_tiles
}

/// A number is read with its most significant byte first or last, as the file says.
pub proof fn law_numbers_have_a_byte_order(file: Seq<u8>, at: int)
    ensures
        u16_at(file, at, true) == 0x100 * file[at] + file[at + 1],
        u16_at(file, at, false) == file[at] + 0x100 * file[at + 1],
        u32_at(file, at, true) == 0x100_0000 * file[at] + 0x1_0000 * file[at + 1] + 0x100 * file[at
            + 2] + file[at + 3],
        u32_at(file, at, false) == file[at] + 0x100 * file[at + 1] + 0x1_0000 * file[at + 2]
            + 0x100_0000 * file[at + 3],
        u64_at(file, at, true) == 0x1_0000_0000 * u32_at(file, at, true) + u32_at(
            file,
            at + 4,
            true,
        ),
        u64_at(file, at, false) == u32_at(file, at, false) + 0x1_0000_0000 * u32_at(
            file,
            at + 4,
            false,
        ),
{
}

/// A TIFF file starts with `II` or `MM`, which tells the byte order, with the number
/// 42, and with the place of its directory, which starts with the number of its
/// entries of 12 bytes.
pub proof fn law_tiff_header(file: Seq<u8>, i: int)
    ensures
        is_tiff(file) <==> file.len() >= 8 && ((file[0] == 'I' as u8 && file[1] == 'I' as u8
            && file[2] == 42 && file[3] == 0) || (file[0] == 'M' as u8 && file[1] == 'M' as u8
            && file[2] == 0 && file[3] == 42)),
        is_tiff(file) ==> {
            let big_endian = file[0] == 'M' as u8;
            let directory = u32_at(file, 4, big_endian);
            &&& is_big_endian(file) == big_endian
            &&& entry_count(file) == if directory + 2 <= file.len() {
                u16_at(file, directory, big_endian)
            } else {
                0
            }
            &&& entry_at(file, i) == directory + 2 + 12 * i
        },
{
}

/// A field has the value of its last entry whose type is one of those that the
/// format has, numbered 1 to 13 and 16 to 18, and none if it has no such entry.
pub proof fn law_last_entry_counts(file: Seq<u8>, tag: u16, n: nat)
    ensures
        field_among(file, tag, n) == Field::Absent <==> forall|i: int|
            0 <= i < n ==> !#[trigger] is_entry_of(file, entry_at(file, i), tag),
        forall|i: int|
            0 <= i < n && #[trigger] is_entry_of(file, entry_at(file, i), tag) && (forall|j: int|
                i < j < n ==> !#[trigger] is_entry_of(file, entry_at(file, j), tag))
                ==> field_among(file, tag, n) == entry_value(file, entry_at(file, i)),
        forall|at: int| #[trigger]
            is_entry_of(file, at, tag) <==> at + 12 <= file.len() && u16_at(
                file,
                at,
                is_big_endian(file),
            ) == tag && ({
                let of_type = u16_at(file, at + 2, is_big_endian(file));
                1 <= of_type <= 13 || 16 <= of_type <= 18
            }),
        field_value(file, tag) == field_among(file, tag, entry_count(file)),
    decreases n,
{
    if n > 0 {
        law_last_entry_counts(file, tag, (n - 1) as nat);
        let last = n - 1;
        if is_entry_of(file, entry_at(file, last), tag) {
        } else {
            assert forall|i: int|
                0 <= i < n && #[trigger] is_entry_of(file, entry_at(file, i), tag) && (forall|
                    j: int,
                |
                    i < j < n ==> !#[trigger] is_entry_of(
                        file,
                        entry_at(file, j),
                        tag,
                    )) implies field_among(file, tag, n) == entry_value(file, entry_at(file, i)) by {
                assert(i < last);
            }
        }
    }
}

/// An entry holds a number if it holds a single one: of one byte (type 1), two (3) or
/// four (4 and 13), which stand in the entry, or of eight (16 and 18), which stand
/// where the entry says.
pub proof fn law_single_numbers_count(file: Seq<u8>, at: int)
    ensures
        ({
            let big_endian = is_big_endian(file);
            let of_type = u16_at(file, at + 2, big_endian);
            let single = u32_at(file, at + 4, big_endian) == 1;
            let place = u32_at(file, at + 8, big_endian);
            &&& !single ==> entry_value(file, at) == Field::Other
            &&& single && of_type == 1 ==> entry_value(file, at) == Field::Number(file[at + 8] as u64)
            &&& single && of_type == 3 ==> (entry_value(file, at) matches Field::Number(number)
                && number == u16_at(file, at + 8, big_endian))
            &&& single && (of_type == 4 || of_type == 13) ==> (entry_value(
                file,
                at,
            ) matches Field::Number(number) && number == place)
            &&& single && (of_type == 16 || of_type == 18) && place + 8 <= file.len() ==> (
            entry_value(file, at) matches Field::Number(number) && number == u64_at(
                file,
                place,
                big_endian,
            ))
            &&& single && (of_type == 16 || of_type == 18) && place + 8 > file.len()
                ==> entry_value(file, at) == Field::Other
            &&& of_type != 1 && of_type != 3 && of_type != 4 && of_type != 13 && of_type != 16
                && of_type != 18 ==> entry_value(file, at) == Field::Other
        }),
{
}

/// The layouts that are not decoded, by the numbers of their fields: several samples
/// (277) in separate planes (284), other than the four of CMYK (262) in fewer rows (257)
/// than a quarter of what four bytes can count; JPEG data (259); and LZW data (259) in
/// tiles (324) that are not as wide (322) as the picture (256).
pub proof fn law_layouts_that_are_not_decoded(file: Seq<u8>)
    ensures
        has_separate_planes(file) <==> is_tiff(file) && field_value(file, 284) == Field::Number(2)
            && (field_value(file, 277) matches Field::Number(samples) && samples > 1) && !(
        field_value(file, 262) == Field::Number(5) && field_value(file, 277) == Field::Number(4) && (
        field_value(file, 257) matches Field::Number(rows) && 4 * rows < 0x1_0000_0000)),
        holds_jpeg(file) <==> is_tiff(file) && field_value(file, 259) == Field::Number(7),
        has_lzw_tiles(file) <==> is_tiff(file) && field_value(file, 259) == Field::Number(5)
            && field_value(file, 324) != Field::Absent && !(field_value(
            file,
            322,
        ) matches Field::Number(width) && field_value(file, 256) == Field::Number(width)),
{
}

} // verus!
