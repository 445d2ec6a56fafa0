//! Decoded frames as the frame cache holds them.

use std::sync::Arc;

use vstd::prelude::*;

verus! {

/// Tightly packed RGBA pixels, shared between the cache and the receivers.
pub type DecodedFrame = Arc<Vec<u8>>;

/// The single plane of an RGBA picture as a decoder or a scaler lays it out:
/// consecutive lines of `stride` bytes, of which the first `width * 4` are
/// pixels and the rest is padding.
pub struct RgbaFrame {
    pub width: u32,
    pub stride: usize,
    pub data: Vec<u8>,
}

/// The pixels of the first `lines` lines, without padding.
pub open spec fn packed_lines(data: Seq<u8>, stride: int, row_len: int, lines: nat) -> Seq<u8>
    decreases lines,
{
    if lines == 0 {
        Seq::empty()
    } else {
        let start = (lines - 1) * stride;
        packed_lines(data, stride, row_len, (lines - 1) as nat) + data.subrange(
            start,
            start + row_len,
        )
    }
}

impl RgbaFrame {
    /// Bytes of pixels in a line.
    pub open spec fn row_len(&self) -> int {
        self.width * 4
    }

    /// Complete lines in the plane. A trailing partial line is not one.
    pub open spec fn lines(&self) -> nat {
        (self.data@.len() as int / self.stride as int) as nat
    }

    /// Every complete line holds at least the pixels it is supposed to hold.
    pub open spec fn well_formed(&self) -> bool {
        &&& 0 < self.stride
        &&& self.stride <= self.data@.len() ==> self.row_len() <= self.stride
    }

    /// The pixels of every complete line, in order, without padding.
    pub open spec fn packed(&self) -> Seq<u8> {
        packed_lines(self.data@, self.stride as int, self.row_len(), self.lines())
    }

    /// Strips the padding at the end of every line.
    pub fn pack(&self) -> (pixels: Vec<u8>)
        requires
            self.well_formed(),
        ensures
            pixels@ == self.packed(),
    {
        let mut pixels: Vec<u8> = Vec::new();
        let mut start: usize = 0;
        let ghost mut line: nat = 0;
        proof {
            lemma_lines_start(self.data@.len() as int, self.stride as int, 0);
        }
        while self.data.len() - start >= self.stride
            invariant
                self.well_formed(),
                start == line * self.stride,
                start <= self.data@.len(),
                pixels@ == packed_lines(self.data@, self.stride as int, self.row_len(), line),
            decreases self.data@.len() - start,
        {
            let row_len: usize = self.width as usize * 4;
            let line_data = &self.data.as_slice()[start..start + row_len];
            pixels.extend_from_slice(line_data);
            proof {
                assert((line + 1) * self.stride == line * self.stride + self.stride)
                    by (nonlinear_arith);
                line = line + 1;
                assert(pixels@ =~= packed_lines(
                    self.data@,
                    self.stride as int,
                    self.row_len(),
                    line,
                ));
            }
            start = start + self.stride;
        }
        proof {
            lemma_lines_start(self.data@.len() as int, self.stride as int, line as int);
        }
        pixels
    }
}

/// What the frame cache keeps of a frame: what the decoder produced, until the
/// frame is first asked for, and its packed pixels from then on.
pub enum CachedFrameData<F> {
    Raw(F),
    Processed(DecodedFrame),
}

pub struct CachedFrame<F> {
    pub data: CachedFrameData<F>,
}

/// `Arc::clone`: another handle on the same bytes.
#[verifier::external_body]
pub(crate) fn share(data: &DecodedFrame) -> (shared: DecodedFrame)
    ensures
        shared == *data,
{
    Arc::clone(data)
}

impl<F> CachedFrame<F> {
    /// Every picture that `convert` can make of the raw frame can be packed.
    pub open spec fn convertible<C: FnOnce(F) -> RgbaFrame>(&self, convert: C) -> bool {
        self.data matches CachedFrameData::Raw(raw) ==> {
            &&& convert.requires((raw,))
            &&& forall|rgba: RgbaFrame| #[trigger]
                convert.ensures((raw,), rgba) ==> rgba.well_formed()
        }
    }

    /// `pixels` are the pixels of this frame: those it was processed to
    /// earlier, or the packed pixels of the picture that `convert` makes of
    /// the raw frame.
    pub open spec fn shows<C: FnOnce(F) -> RgbaFrame>(
        &self,
        convert: C,
        pixels: DecodedFrame,
    ) -> bool {
        match self.data {
            CachedFrameData::Raw(raw) => exists|rgba: RgbaFrame| #[trigger]
                convert.ensures((raw,), rgba) && pixels@ == rgba.packed(),
            CachedFrameData::Processed(processed) => pixels == processed,
        }
    }

    /// The frame's pixels. The first call converts and packs the raw frame and
    /// keeps the result; later calls hand out that result again.
    pub fn process<C: FnOnce(F) -> RgbaFrame>(&mut self, convert: C) -> (pixels: DecodedFrame)
        requires
            old(self).convertible(convert),
        ensures
            old(self).shows(convert, pixels),
            final(self).data == CachedFrameData::<F>::Processed(pixels),
    {
        let mut data = CachedFrameData::Processed(Arc::new(Vec::new()));
        std::mem::swap(&mut self.data, &mut data);
        let pixels = match data {
            CachedFrameData::Raw(raw) => {
                let rgba = convert(raw);
                Arc::new(rgba.pack())
            },
            CachedFrameData::Processed(pixels) => pixels,
        };
        self.data = CachedFrameData::Processed(share(&pixels));
        pixels
    }
}

/// Packing keeps every pixel byte of every complete line and nothing else:
/// byte `x` of line `y` moves from `y * stride + x` to `y * row_len + x`.
pub proof fn law_packing_strips_padding(frame: RgbaFrame, x: int, y: int)
    requires
        frame.well_formed(),
        0 <= x < frame.row_len(),
        0 <= y < frame.lines(),
    ensures
        frame.packed().len() == frame.lines() * frame.row_len(),
        0 <= y * frame.row_len() + x < frame.packed().len(),
        frame.packed()[y * frame.row_len() + x] == frame.data@[y * frame.stride + x],
{
    vstd::arithmetic::div_mod::lemma_fundamental_div_mod(
        frame.data@.len() as int,
        frame.stride as int,
    );
    assert(frame.stride * frame.lines() == frame.lines() * frame.stride) by (nonlinear_arith);
    if frame.data@.len() < frame.stride {
        vstd::arithmetic::div_mod::lemma_basic_div(frame.data@.len() as int, frame.stride as int);
    }
    lemma_packed_byte(frame.data@, frame.stride as int, frame.row_len(), frame.lines(), x, y);
}

proof fn lemma_packed_byte(data: Seq<u8>, stride: int, row_len: int, lines: nat, x: int, y: int)
    requires
        0 <= row_len <= stride,
        lines * stride <= data.len(),
        0 <= x < row_len,
        0 <= y < lines,
    ensures
        packed_lines(data, stride, row_len, lines).len() == lines * row_len,
        0 <= y * row_len + x < lines * row_len,
        packed_lines(data, stride, row_len, lines)[y * row_len + x] == data[y * stride + x],
    decreases lines,
{
    let last = lines - 1;
    let earlier = packed_lines(data, stride, row_len, last as nat);
    assert(lines * stride == last * stride + stride) by (nonlinear_arith)
        requires
            last == lines - 1,
    ;
    assert(lines * row_len == last * row_len + row_len) by (nonlinear_arith)
        requires
            last == lines - 1,
    ;
    assert(0 <= last * stride) by (nonlinear_arith)
        requires
            0 <= last,
            0 <= stride,
    ;
    lemma_packed_len(data, stride, row_len, last as nat);
    if y < last {
        lemma_packed_byte(data, stride, row_len, last as nat, x, y);
    }
}

proof fn lemma_packed_len(data: Seq<u8>, stride: int, row_len: int, lines: nat)
    requires
        0 <= row_len <= stride,
        lines * stride <= data.len(),
    ensures
        packed_lines(data, stride, row_len, lines).len() == lines * row_len,
    decreases lines,
{
    if lines > 0 {
        let last = lines - 1;
        assert(lines * stride == last * stride + stride) by (nonlinear_arith)
            requires
                last == lines - 1,
        ;
        assert(lines * row_len == last * row_len + row_len) by (nonlinear_arith)
            requires
                last == lines - 1,
        ;
        assert(0 <= last * stride) by (nonlinear_arith)
            requires
                0 <= last,
                0 <= stride,
        ;
        lemma_packed_len(data, stride, row_len, last as nat);
    } else {
        assert(lines * row_len == 0) by (nonlinear_arith)
            requires
                lines == 0,
        ;
    }
}

/// `lines` lines of `stride` bytes fit in `len` bytes exactly up to the
/// quotient.
proof fn lemma_lines_start(len: int, stride: int, lines: int)
    requires
        0 < stride,
        0 <= len,
        0 <= lines,
    ensures
        lines * stride <= len < lines * stride + stride ==> lines == len / stride,
{
    if lines * stride <= len < lines * stride + stride {
        vstd::arithmetic::div_mod::lemma_fundamental_div_mod_converse(
            len,
            stride,
            lines,
            len - lines * stride,
        );
    }
}

/// A frame whose data holds `lines` complete lines has as many lines of pixels after
/// packing, of four bytes for every pixel of its width. Byte `x` of line `y` is byte
/// `x` of the line that starts at `y * stride`.
pub proof fn law_every_complete_line_is_kept(frame: RgbaFrame, lines: int, x: int, y: int)
    requires
        frame.well_formed(),
        0 <= lines,
        lines * frame.stride <= frame.data@.len() < lines * frame.stride + frame.stride,
    ensures
        frame.packed().len() == lines * (4 * frame.width),
        0 <= x < 4 * frame.width && 0 <= y < lines ==> frame.packed()[y * (4 * frame.width) + x]
            == frame.data@[y * frame.stride + x],
{
    lemma_lines_start(frame.data@.len() as int, frame.stride as int, lines);
    assert(frame.lines() == lines);
    if lines > 0 {
        assert(lines * frame.stride >= frame.stride) by (nonlinear_arith)
            requires
                lines > 0,
                frame.stride > 0,
        ;
        lemma_packed_len(frame.data@, frame.stride as int, frame.row_len(), frame.lines());
        if 0 <= x < 4 * frame.width && 0 <= y < lines {
            law_packing_strips_padding(frame, x, y);
        }
    } else {
        assert(0 * (4 * frame.width) == 0);
        assert(frame.packed().len() == 0);
    }
}

/// The pixels of a frame are those it was processed to earlier or, the first time,
/// the packed pixels of what the conversion made of the raw frame.
pub proof fn law_frame_shows_its_own_pixels<F, C: FnOnce(F) -> RgbaFrame>(
    cached: CachedFrame<F>,
    convert: C,
    pixels: DecodedFrame,
)
    requires
        cached.shows(convert, pixels),
    ensures
        cached.data matches CachedFrameData::Processed(earlier) ==> pixels == earlier,
        cached.data matches CachedFrameData::Raw(raw) ==> exists|rgba: RgbaFrame| #[trigger]
            convert.ensures((raw,), rgba) && pixels@ == rgba.packed(),
{
}

} // verus!
