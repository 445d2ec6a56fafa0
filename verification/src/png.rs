//! How a PNG file gives the colours of its pixels, as far as it decides whether
//! the file can be decoded.

use vstd::prelude::*;

use crate::tiff::{read_u32, u32_at};

verus! {

/// Where the chunks of a file start. The first one is the header.
pub const FIRST_CHUNK: usize = 8;

/// Where the header says what the samples of a pixel are.
pub const COLOUR_TYPE: usize = 25;

/// Pixels that are numbers of colours in a palette.
pub const INDEXED: u8 = 3;

/// A palette has at most 256 colours, of three bytes each.
pub const MAX_PALETTE_LEN: u32 = 768;

/// Bytes of a chunk besides its data: the length, the kind and the checksum.
pub const CHUNK_OVERHEAD: u64 = 12;

/// What the chunk at `at` holds, in four letters.
pub open spec fn chunk_kind(file: Seq<u8>, at: int) -> (u8, u8, u8, u8) {
    (file[at + 4], file[at + 5], file[at + 6], file[at + 7])
}

/// `PLTE`, the palette.
pub open spec fn is_palette(kind: (u8, u8, u8, u8)) -> bool {
    kind == (0x50u8, 0x4cu8, 0x54u8, 0x45u8)
}

/// `IDAT` and `fdAT`, pixels.
pub open spec fn is_pixels(kind: (u8, u8, u8, u8)) -> bool {
    kind == (0x49u8, 0x44u8, 0x41u8, 0x54u8) || kind == (0x66u8, 0x64u8, 0x41u8, 0x54u8)
}

/// Whether a palette of `len` bytes has whole colours, and not too many.
pub open spec fn is_palette_len(len: int) -> bool {
    len % 3 == 0 && len <= MAX_PALETTE_LEN
}

/// Whether the file starts like a PNG file.
pub open spec fn is_png(file: Seq<u8>) -> bool {
    &&& file.len() >= FIRST_CHUNK
    &&& file[0] == 0x89
    &&& file[1] == 0x50
    &&& file[2] == 0x4e
    &&& file[3] == 0x47
    &&& file[4] == 0x0d
    &&& file[5] == 0x0a
    &&& file[6] == 0x1a
    &&& file[7] == 0x0a
}

/// Whether one of the chunks from `at` on, and before the first pixels, is a
/// palette of a length that no palette has.
pub open spec fn has_broken_palette_from(file: Seq<u8>, at: int) -> bool
    decreases if at < file.len() { file.len() - at } else { 0 },
{
    if at < 0 || at + 8 > file.len() || is_pixels(chunk_kind(file, at)) {
        false
    } else if is_palette(chunk_kind(file, at)) && !is_palette_len(u32_at(file, at, true)) {
        true
    } else {
        has_broken_palette_from(file, at + CHUNK_OVERHEAD + u32_at(file, at, true))
    }
}

/// Whether the file is a PNG file whose pixels are numbers of colours in a
/// palette, and the palette has a length that no palette has.
pub open spec fn has_broken_palette(file: Seq<u8>) -> bool {
    &&& is_png(file)
    &&& file.len() > COLOUR_TYPE
    &&& file[COLOUR_TYPE as int] == INDEXED
    &&& has_broken_palette_from(file, FIRST_CHUNK as int)
}

/// Whether the file is a PNG file with a palette that cannot be used.
pub fn palette_is_broken(file: &Vec<u8>) -> (broken: bool)
    ensures
        broken == has_broken_palette(file@),
{
    assert(file.len() == file@.len());
    let png = file.len() > COLOUR_TYPE && file[0] == 0x89 && file[1] == 0x50 && file[2] == 0x4e
        && file[3] == 0x47 && file[4] == 0x0d && file[5] == 0x0a && file[6] == 0x1a && file[7]
        == 0x0a;
    if !png || file[COLOUR_TYPE] != INDEXED {
        return false;
    }
    let len: u64 = file.len() as u64;
    let mut at: u64 = FIRST_CHUNK as u64;
    while at < len && len - at >= 8
        invariant
            len == file@.len() == file.len(),
            is_png(file@),
            has_broken_palette(file@) == has_broken_palette_from(file@, at as int),
        decreases len - at,
    {
        let here: usize = at as usize;
        let data_len: u32 = read_u32(file, here, true);
        let kind = (file[here + 4], file[here + 5], file[here + 6], file[here + 7]);
        if kind.0 == 0x49 && kind.1 == 0x44 && kind.2 == 0x41 && kind.3 == 0x54 {
            return false;
        }
        if kind.0 == 0x66 && kind.1 == 0x64 && kind.2 == 0x41 && kind.3 == 0x54 {
            return false;
        }
        if kind.0 == 0x50 && kind.1 == 0x4c && kind.2 == 0x54 && kind.3 == 0x45 && (data_len % 3
            != 0 || data_len > MAX_PALETTE_LEN) {
            return true;
        }
        let step: u64 = CHUNK_OVERHEAD + data_len as u64;
        if step >= len - at {
            assert(!has_broken_palette_from(file@, at + step));
            return false;
        }
        at = at + step;
    }
    false
}

/// The number in the four bytes from `at` on, the most significant first.
pub open spec fn chunk_len(file: Seq<u8>, at: int) -> int {
    0x100_0000 * file[at] + 0x1_0000 * file[at + 1] + 0x100 * file[at + 2] + file[at + 3]
}

/// The chunks that start at these places follow one another from the first one on,
/// and none but the last one holds pixels.
pub open spec fn are_chunks(file: Seq<u8>, at: Seq<int>) -> bool {
    &&& at.len() > 0
    &&& at[0] == 8
    &&& forall|i: int|
        #![trigger at[i]]
        0 <= i < at.len() ==> 0 <= at[i] && at[i] + 8 <= file.len()
    &&& forall|i: int|
        0 <= i < at.len() - 1 ==> #[trigger] at[i + 1] == at[i] + 12 + chunk_len(file, at[i])
    &&& forall|i: int|
        #![trigger at[i]]
        0 <= i < at.len() - 1 ==> file.subrange(at[i] + 4, at[i] + 8) != seq![
            0x49u8,
            0x44u8,
            0x41u8,
            0x54u8,
        ] && file.subrange(at[i] + 4, at[i] + 8) != seq![0x66u8, 0x64u8, 0x41u8, 0x54u8]
}

/// The last of the chunks is a palette with a part of a colour, or with more than
/// 256 colours.
pub open spec fn end_in_bad_palette(file: Seq<u8>, at: Seq<int>) -> bool {
    &&& are_chunks(file, at)
    &&& file.subrange(at.last() + 4, at.last() + 8) == seq![0x50u8, 0x4cu8, 0x54u8, 0x45u8]
    &&& chunk_len(file, at.last()) % 3 != 0 || chunk_len(file, at.last()) > 3 * 256
}

proof fn lemma_kind(file: Seq<u8>, at: int)
    requires
        0 <= at,
        at + 8 <= file.len(),
    ensures
        is_palette(chunk_kind(file, at)) <==> file.subrange(at + 4, at + 8) == seq![
            0x50u8,
            0x4cu8,
            0x54u8,
            0x45u8,
        ],
        is_pixels(chunk_kind(file, at)) <==> file.subrange(at + 4, at + 8) == seq![
            0x49u8,
            0x44u8,
            0x41u8,
            0x54u8,
        ] || file.subrange(at + 4, at + 8) == seq![0x66u8, 0x64u8, 0x41u8, 0x54u8],
        chunk_len(file, at) == u32_at(file, at, true),
{
    let kind = file.subrange(at + 4, at + 8);
    assert(kind[0] == file[at + 4] && kind[1] == file[at + 5] && kind[2] == file[at + 6] && kind[3]
        == file[at + 7]);
    let palette = seq![0x50u8, 0x4cu8, 0x54u8, 0x45u8];
    let idat = seq![0x49u8, 0x44u8, 0x41u8, 0x54u8];
    let fdat = seq![0x66u8, 0x64u8, 0x41u8, 0x54u8];
    if is_palette(chunk_kind(file, at)) {
        assert(kind =~= palette);
    }
    if is_pixels(chunk_kind(file, at)) {
        assert(kind =~= idat || kind =~= fdat);
    }
}

/// Every palette that cannot be used is found: in a PNG file whose pixels are numbers
/// of colours, however many chunks stand before it.
pub proof fn law_bad_palette_is_found(file: Seq<u8>, at: Seq<int>)
    requires
        end_in_bad_palette(file, at),
        file.len() > 25,
        file.take(8) == seq![0x89u8, 0x50u8, 0x4eu8, 0x47u8, 0x0du8, 0x0au8, 0x1au8, 0x0au8],
        file[25] == 3,
    ensures
        has_broken_palette(file),
{
    let signature = file.take(8);
    assert(forall|i: int| 0 <= i < 8 ==> signature[i] == file[i]);
    lemma_found(file, at, 0);
}

proof fn lemma_found(file: Seq<u8>, at: Seq<int>, i: int)
    requires
        end_in_bad_palette(file, at),
        0 <= i < at.len(),
    ensures
        has_broken_palette_from(file, at[i]),
    decreases at.len() - i,
{
    lemma_kind(file, at[i]);
    if i == at.len() - 1 {
        if is_pixels(chunk_kind(file, at[i])) {
            let kind = file.subrange(at[i] + 4, at[i] + 8);
            assert(kind[0] == 0x50);
        }
    } else {
        lemma_found(file, at, i + 1);
        assert(at[i + 1] == at[i] + 12 + chunk_len(file, at[i]));
    }
}

/// No other palette is taken for one that cannot be used, and no other file is
/// affected.
pub proof fn law_only_bad_palettes_are_found(file: Seq<u8>)
    requires
        has_broken_palette(file),
    ensures
        file.len() > 25,
        file.take(8) == seq![0x89u8, 0x50u8, 0x4eu8, 0x47u8, 0x0du8, 0x0au8, 0x1au8, 0x0au8],
        file[25] == 3,
        exists|at: Seq<int>| #[trigger] end_in_bad_palette(file, at),
{
    assert(file.take(8) =~= seq![
        0x89u8,
        0x50u8,
        0x4eu8,
        0x47u8,
        0x0du8,
        0x0au8,
        0x1au8,
        0x0au8,
    ]);
    lemma_only_found(file, seq![8int]);
}

proof fn lemma_only_found(file: Seq<u8>, at: Seq<int>)
    requires
        are_chunks(file, at),
        has_broken_palette_from(file, at.last()),
    ensures
        exists|all: Seq<int>| #[trigger] end_in_bad_palette(file, all),
    decreases file.len() - at.last(),
{
    let last = at.last();
    lemma_kind(file, last);
    if is_palette(chunk_kind(file, last)) && !is_palette_len(u32_at(file, last, true)) {
        assert(end_in_bad_palette(file, at));
    } else {
        let following = last + 12 + chunk_len(file, last);
        let more = at.push(following);
        assert(has_broken_palette_from(file, following));
        assert forall|i: int|
            #![trigger more[i]]
            0 <= i < more.len() implies 0 <= more[i] && more[i] + 8 <= file.len() by {
            if i < at.len() {
                assert(more[i] == at[i]);
            }
        }
        assert forall|i: int| 0 <= i < more.len() - 1 implies #[trigger] more[i + 1] == more[i] + 12
            + chunk_len(file, more[i]) by {
            if i < at.len() - 1 {
                assert(more[i + 1] == at[i + 1]);
            }
        }
        assert forall|i: int|
            #![trigger more[i]]
            0 <= i < more.len() - 1 implies file.subrange(more[i] + 4, more[i] + 8) != seq![
            0x49u8,
            0x44u8,
            0x41u8,
            0x54u8,
        ] && file.subrange(more[i] + 4, more[i] + 8) != seq![0x66u8, 0x64u8, 0x41u8, 0x54u8] by {
            assert(more[i] == at[i]);
        }
        assert(are_chunks(file, more));
        lemma_only_found(file, more);
    }
}

} // verus!
