use vstd::prelude::*;

use crate::avcodec::{PixelFormat, Rational};
use crate::utils::parse::{parse_i32, parse_usize, spec_parse_i32, spec_parse_usize};

verus! {

/// Whether `k` is the position of the first space in `s`.
pub open spec fn is_first_space(s: Seq<char>, k: int) -> bool {
    &&& 0 <= k < s.len()
    &&& s[k] == ' '
    &&& forall|j: int| 0 <= j < k ==> s[j] != ' '
}

/// The time base for an FPS value: `1 / fps` for a positive integer FPS, `b / a` for a
/// fractional FPS written `a b`, and nothing for anything else.
pub open spec fn spec_parse_fps(s: Seq<char>) -> Option<Rational> {
    match spec_parse_i32(s) {
        Some(fps) => if fps <= 0 {
            None
        } else {
            Some(Rational { numerator: 1, denominator: fps })
        },
        None => if exists|k: int| is_first_space(s, k) {
            let k = choose|k: int| is_first_space(s, k);
            match (spec_parse_i32(s.take(k)), spec_parse_i32(s.skip(k + 1))) {
                (Some(den), Some(num)) => if num <= 0 || den <= 0 {
                    None
                } else {
                    Some(Rational { numerator: num, denominator: den })
                },
                _ => None,
            }
        } else {
            None
        },
    }
}

/// Parses the given string and returns a time base.
///
/// The string can be in one of the two formats:
/// - `<i32 FPS>` - treated as an integer FPS value,
/// - `<i32 a> <i32 b>` - treated as a fractional `a/b` FPS value.
pub fn parse_fps(string: &str) -> (r: Option<Rational>)
    ensures
        r == spec_parse_fps(string@),
{
    if let Some(fps) = parse_i32(string) {
        if fps <= 0 {
            return None;
        }
        return Some(Rational::from((1, fps)));
    }
    let len = string.unicode_len();
    let mut k: usize = 0;
    while k < len && string.get_char(k) != ' '
        invariant
            k <= len,
            len == string@.len(),
            forall|j: int| 0 <= j < k ==> string@[j] != ' ',
        decreases len - k,
    {
        k = k + 1;
    }
    if k == len {
        assert(!exists|j: int| is_first_space(string@, j));
        return None;
    }
    proof {
        assert(is_first_space(string@, k as int));
        let c = choose|j: int| is_first_space(string@, j);
        assert(c == k);
    }
    let first = string.substring_char(0, k);
    let second = string.substring_char(k + 1, len);
    assert(first@ =~= string@.take(k as int));
    assert(second@ =~= string@.skip(k + 1));
    if let Some(den) = parse_i32(first) {
        if let Some(num) = parse_i32(second) {
            if num <= 0 || den <= 0 {
                return None;
            }
            return Some(Rational::from((num, den)));
        }
    }
    None
}

/// A message to the capture thread.
#[derive(Debug, Clone, Copy, PartialEq, Eq, Structural)]
pub enum CaptureThreadEvent {
    /// Capturing starts: start the encoder.
    CaptureStart,
    /// Capturing stops: finish the encoder.
    CaptureStop,
    /// A video frame to encode (the frame itself travels beside the event).
    VideoFrame,
    /// A block of sound to encode (the samples travel beside the event).
    AudioFrame,
}

/// What the capture thread does in answer to an event.
#[derive(Debug, Clone, Copy, PartialEq, Eq, Structural)]
pub enum CaptureThreadAction {
    /// Start a new encoder; its outcome goes to `encoder_start_result`.
    StartEncoder,
    /// Finish and drop the encoder, if there is one.
    StopEncoder,
    /// Hand the buffer back without encoding it.
    DropFrame,
    /// Encode the video frame; a failure goes to `encoding_failed`.
    EncodeVideo,
    /// Encode the sound; a failure goes to `encoding_failed`.
    EncodeAudio,
}

/// The decisions of the capture thread: whether received frames are dropped, and whether an
/// encoder is running.
///
/// Frames are dropped from the start, after a stop and after any failure, and are only passed
/// on to an encoder that is running.
pub struct CaptureThreadState {
    drop_frames: bool,
    has_encoder: bool,
}

impl CaptureThreadState {
    /// Whether received frames are dropped.
    pub closed spec fn spec_drop_frames(self) -> bool {
        self.drop_frames
    }

    /// Whether an encoder is running.
    pub closed spec fn spec_has_encoder(self) -> bool {
        self.has_encoder
    }

    /// Frames are either dropped or go to a running encoder. Every state that `new` and the
    /// transitions below produce is consistent.
    pub open spec fn spec_consistent(self) -> bool {
        !self.spec_drop_frames() ==> self.spec_has_encoder()
    }

    #[verifier::type_invariant]
    closed spec fn encoding_needs_encoder(self) -> bool {
        !self.drop_frames ==> self.has_encoder
    }

    /// The state of a freshly started capture thread: no encoder, frames dropped.
    pub fn new() -> (r: Self)
        ensures
            r.spec_drop_frames(),
            !r.spec_has_encoder(),
            r.spec_consistent(),
    {
        Self { drop_frames: true, has_encoder: false }
    }

    /// Returns whether received frames are dropped.
    pub fn drop_frames(&self) -> (r: bool)
        ensures
            r == self.spec_drop_frames(),
    {
        self.drop_frames
    }

    /// Returns whether an encoder is running.
    pub fn has_encoder(&self) -> (r: bool)
        ensures
            r == self.spec_has_encoder(),
    {
        self.has_encoder
    }

    /// Decides what to do with an event.
    ///
    /// A start only comes while no encoder runs: the game thread refuses to start twice, and a
    /// stop or a failure always finishes the encoder first.
    pub fn on_event(&mut self, event: CaptureThreadEvent) -> (r: CaptureThreadAction)
        requires
            event == CaptureThreadEvent::CaptureStart ==> !old(self).spec_has_encoder(),
        ensures
            r == (match event {
                CaptureThreadEvent::CaptureStart => CaptureThreadAction::StartEncoder,
                CaptureThreadEvent::CaptureStop => CaptureThreadAction::StopEncoder,
                CaptureThreadEvent::VideoFrame => if old(self).spec_drop_frames() {
                    CaptureThreadAction::DropFrame
                } else {
                    CaptureThreadAction::EncodeVideo
                },
                CaptureThreadEvent::AudioFrame => if old(self).spec_drop_frames() {
                    CaptureThreadAction::DropFrame
                } else {
                    CaptureThreadAction::EncodeAudio
                },
            }),
            event == CaptureThreadEvent::CaptureStop ==> final(self).spec_drop_frames()
                && !final(self).spec_has_encoder(),
            event != CaptureThreadEvent::CaptureStop ==> *final(self) == *old(self),
            r == CaptureThreadAction::EncodeVideo || r == CaptureThreadAction::EncodeAudio
                ==> final(self).spec_has_encoder(),
            final(self).spec_consistent(),
    {
        proof {
            use_type_invariant(&*self);
        }
        match event {
            CaptureThreadEvent::CaptureStart => CaptureThreadAction::StartEncoder,
            CaptureThreadEvent::CaptureStop => {
                *self = CaptureThreadState { drop_frames: true, has_encoder: false };
                CaptureThreadAction::StopEncoder
            },
            CaptureThreadEvent::VideoFrame => {
                if self.drop_frames {
                    CaptureThreadAction::DropFrame
                } else {
                    CaptureThreadAction::EncodeVideo
                }
            },
            CaptureThreadEvent::AudioFrame => {
                if self.drop_frames {
                    CaptureThreadAction::DropFrame
                } else {
                    CaptureThreadAction::EncodeAudio
                }
            },
        }
    }

    /// Records whether starting the encoder succeeded: frames are encoded from now on if it
    /// did, and dropped if it did not.
    pub fn encoder_start_result(&mut self, started: bool)
        ensures
            final(self).spec_has_encoder() == started,
            final(self).spec_drop_frames() == !started,
            final(self).spec_consistent(),
    {
        *self = CaptureThreadState { drop_frames: !started, has_encoder: started };
    }

    /// Records that encoding a frame failed: the encoder is to be stopped and frames are
    /// dropped from now on.
    pub fn encoding_failed(&mut self) -> (r: CaptureThreadAction)
        ensures
            r == CaptureThreadAction::StopEncoder,
            final(self).spec_drop_frames(),
            !final(self).spec_has_encoder(),
            final(self).spec_consistent(),
    {
        *self = CaptureThreadState { drop_frames: true, has_encoder: false };
        CaptureThreadAction::StopEncoder
    }
}

/// The position in a plane of byte `x` of the `y`-th source row, rows being stored bottom-up:
/// the first source row lands in the last of `rows` rows, `stride` bytes apart.
pub open spec fn flipped_position(rows: int, stride: int, y: int, x: int) -> int {
    (rows - 1 - y) * stride + x
}

/// The position in the source of byte `x` of its `y`-th row of `len` bytes, from `offset`.
pub open spec fn source_position(offset: int, len: int, y: int, x: int) -> int {
    offset + y * len + x
}

/// Whether position `p` lies within the first `len` bytes of one of the plane rows
/// `lo..hi`, rows being `stride` bytes apart.
pub open spec fn in_rows(p: int, stride: int, len: int, lo: int, hi: int) -> bool {
    exists|r: int| lo <= r < hi && #[trigger] (r * stride) <= p < r * stride + len
}

proof fn lemma_row_bounds(r: int, q: int, stride: int, len: int)
    by (nonlinear_arith)
    requires
        0 <= r < q,
        0 <= len <= stride,
    ensures
        r * stride + len <= q * stride,
{
    assert((r + 1) * stride <= q * stride);
}

proof fn lemma_mul_le(a: int, b: int, c: int)
    by (nonlinear_arith)
    requires
        0 <= a <= b,
        0 <= c,
    ensures
        a * c <= b * c,
{
}

/// `dst` with `row` written over it from position `start` on.
pub open spec fn spec_write_row(dst: Seq<u8>, start: int, row: Seq<u8>) -> Seq<u8> {
    Seq::new(dst.len(), |p: int| if start <= p < start + row.len() { row[p - start] } else { dst[p] })
}

/// `dst` after the first `y` of `rows` rows of `len` bytes, read one after the other from `src`
/// starting at `offset`, were written into it bottom-up: source row `k` goes to the plane row
/// `rows - 1 - k`, plane rows being `stride` bytes apart.
pub open spec fn spec_rows_copied(
    dst: Seq<u8>,
    src: Seq<u8>,
    offset: int,
    stride: int,
    len: int,
    rows: int,
    y: nat,
) -> Seq<u8>
    decreases y,
{
    if y == 0 {
        dst
    } else {
        let prev = spec_rows_copied(dst, src, offset, stride, len, rows, (y - 1) as nat);
        spec_write_row(
            prev,
            (rows - y) * stride,
            src.subrange(offset + (y - 1) * len, offset + y * len),
        )
    }
}

/// When rows do not reach into one another (`len <= stride`), copying the first `y` rows puts
/// byte `x` of source row `k` at its flipped position, and leaves every byte outside the plane
/// rows written unchanged.
pub proof fn lemma_rows_copied(
    dst: Seq<u8>,
    src: Seq<u8>,
    offset: int,
    stride: int,
    len: int,
    rows: int,
    y: nat,
)
    requires
        0 <= len <= stride,
        0 <= offset,
        y <= rows,
        offset + rows * len <= src.len(),
        rows > 0 ==> (rows - 1) * stride + len <= dst.len(),
    ensures
        spec_rows_copied(dst, src, offset, stride, len, rows, y).len() == dst.len(),
        forall|k: int, x: int|
            0 <= k < y && 0 <= x < len ==> spec_rows_copied(dst, src, offset, stride, len, rows, y)[
                #[trigger] flipped_position(rows, stride, k, x)] == src[source_position(
                offset,
                len,
                k,
                x,
            )],
        forall|p: int|
            0 <= p < dst.len() && !in_rows(p, stride, len, rows - y, rows) ==> #[trigger]
                spec_rows_copied(dst, src, offset, stride, len, rows, y)[p] == dst[p],
    decreases y,
{
    if y > 0 {
        let y1 = (y - 1) as nat;
        lemma_rows_copied(dst, src, offset, stride, len, rows, y1);
        let prev = spec_rows_copied(dst, src, offset, stride, len, rows, y1);
        let row = rows - y;
        let start = row * stride;
        let piece = src.subrange(offset + y1 * len, offset + y * len);
        let result = spec_rows_copied(dst, src, offset, stride, len, rows, y);
        assert(result == spec_write_row(prev, start, piece));
        assert(y * len == y1 * len + len) by (nonlinear_arith)
            requires
                y1 == y - 1,
        ;
        lemma_mul_le(y as int, rows, len);
        assert(0 <= y1 * len) by (nonlinear_arith)
            requires
                y1 >= 0,
                len >= 0,
        ;
        assert(piece.len() == len);
        assert forall|k: int, x: int| 0 <= k < y && 0 <= x < len implies result[
            #[trigger] flipped_position(rows, stride, k, x)] == src[source_position(
            offset,
            len,
            k,
            x,
        )] by {
            let q = rows - 1 - k;
            let pos = flipped_position(rows, stride, k, x);
            assert(pos == q * stride + x);
            lemma_mul_le(q, rows - 1, stride);
            assert(0 <= q * stride) by (nonlinear_arith)
                requires
                    q >= 0,
                    stride >= 0,
            ;
            if k == y1 {
                assert(q == row);
                assert(source_position(offset, len, k, x) == offset + y1 * len + x);
            } else {
                lemma_row_bounds(row, q, stride, len);
                assert(!(start <= pos < start + len));
            }
        }
        assert forall|p: int|
            0 <= p < dst.len() && !in_rows(p, stride, len, rows - y, rows) implies #[trigger]
            result[p] == dst[p] by {
            if start <= p < start + len {
                assert(in_rows(p, stride, len, rows - y, rows));
            }
            if in_rows(p, stride, len, rows - y1, rows) {
                let r = choose|r: int| rows - y1 <= r < rows && #[trigger] (r * stride) <= p < r * stride + len;
                assert(in_rows(p, stride, len, rows - y, rows));
            }
        }
    }
}

/// Copies `rows` rows of `len` bytes each, read one after the other from `src` starting at
/// `offset`, into `dst` with the row order reversed (the first source row becomes the last
/// plane row), rows being `stride` bytes apart in `dst`, writing the rows in source order.
/// Returns the source offset after the last row read.
///
/// Where a row does not reach into the next (`len <= stride`, as the line sizes of FFmpeg's
/// planes guarantee), each source byte lands at its flipped position and the bytes of `dst`
/// outside the written rows are left unchanged.
pub fn copy_rows_flipped(
    src: &[u8],
    offset: usize,
    dst: &mut [u8],
    stride: usize,
    len: usize,
    rows: usize,
) -> (r: usize)
    requires
        offset + rows * len <= src@.len(),
        rows > 0 ==> (rows - 1) * stride + len <= old(dst)@.len(),
    ensures
        r == offset + rows * len,
        final(dst)@ == spec_rows_copied(
            old(dst)@,
            src@,
            offset as int,
            stride as int,
            len as int,
            rows as int,
            rows as nat,
        ),
        final(dst)@.len() == old(dst)@.len(),
        len <= stride ==> forall|y: int, x: int|
            0 <= y < rows && 0 <= x < len ==> final(dst)@[#[trigger] flipped_position(
                rows as int,
                stride as int,
                y,
                x,
            )] == src@[source_position(offset as int, len as int, y, x)],
        len <= stride ==> forall|p: int|
            0 <= p < old(dst)@.len() && !in_rows(p, stride as int, len as int, 0, rows as int)
                ==> #[trigger] final(dst)@[p] == old(dst)@[p],
{
    let ghost initial = dst@;
    let dst_len = dst.len();
    let src_len = src.len();
    let mut offset = offset;
    let ghost offset0 = offset as int;
    let mut y: usize = 0;
    while y < rows
        invariant
            y <= rows,
            offset == offset0 + y * len,
            offset0 + rows * len <= src@.len(),
            rows > 0 ==> (rows - 1) * stride + len <= initial.len(),
            dst_len == dst@.len(),
            src_len == src@.len(),
            dst@ == spec_rows_copied(
                initial,
                src@,
                offset0,
                stride as int,
                len as int,
                rows as int,
                y as nat,
            ),
            dst@.len() == initial.len(),
        decreases rows - y,
    {
        let ghost before = dst@;
        let row = rows - y - 1;
        proof {
            lemma_mul_le(row as int, (rows - 1) as int, stride as int);
            lemma_mul_le((y + 1) as int, rows as int, len as int);
            assert(offset + len == offset0 + (y + 1) * len) by (nonlinear_arith)
                requires
                    offset == offset0 + y * len,
            ;
        }
        let start = row * stride;
        let mut x: usize = 0;
        while x < len
            invariant
                x <= len,
                start == row * stride,
                start + len <= dst@.len(),
                offset + len <= src@.len(),
                dst@.len() == before.len(),
                dst_len == dst@.len(),
                src_len == src@.len(),
                forall|p: int|
                    0 <= p < before.len() ==> #[trigger] dst@[p] == (if start <= p < start + x {
                        src@[offset + p - start]
                    } else {
                        before[p]
                    }),
            decreases len - x,
        {
            dst[start + x] = src[offset + x];
            x = x + 1;
        }
        proof {
            let piece = src@.subrange(offset as int, offset + len);
            assert(piece =~= src@.subrange(offset0 + y * len, offset0 + (y + 1) * len));
            assert(((rows - (y + 1)) * stride) == start);
            assert(dst@ =~= spec_write_row(before, start as int, piece));
        }
        offset = offset + len;
        y = y + 1;
    }
    proof {
        if len <= stride {
            lemma_rows_copied(
                initial,
                src@,
                offset0,
                stride as int,
                len as int,
                rows as int,
                rows as nat,
            );
        }
    }
    offset
}

/// `s` cut or zero-extended to length `n`, as `Vec::resize(n, 0)` leaves it.
pub open spec fn spec_resized(s: Seq<u8>, n: nat) -> Seq<u8> {
    if n <= s.len() {
        s.take(n as int)
    } else {
        s + Seq::new((n - s.len()) as nat, |i: int| 0u8)
    }
}

/// The size and pixel format of a video frame.
#[derive(Debug, Clone, Copy, PartialEq, Eq, Structural)]
pub struct FrameShape {
    pub width: u32,
    pub height: u32,
    pub format: PixelFormat,
}

/// A buffer that the game thread writes pixels to and the capture thread encodes from.
///
/// The pixels are either in `data`, rows bottom-up as OpenGL reads them, or already in the
/// capture thread's video frame (which travels beside this buffer).
pub struct VideoBuffer {
    data: Vec<u8>,
    width: u32,
    height: u32,
    format: FormatInfo,
    data_is_in_frame: bool,
}

/// A pixel format together with its number of components.
struct FormatInfo {
    format: PixelFormat,
    components: u8,
}

impl FormatInfo {
    /// The number of components belongs to the format.
    #[verifier::type_invariant]
    spec fn components_belong_to_format(self) -> bool {
        self.format.spec_components() == Some(self.components)
    }

    /// The format with its number of components; it must have a descriptor.
    fn new(format: PixelFormat) -> (r: Self)
        requires
            format.spec_components() is Some,
        ensures
            r.format == format,
            Some(r.components) == format.spec_components(),
    {
        FormatInfo { format, components: format.components().unwrap() }
    }

    fn format(&self) -> (r: PixelFormat)
        ensures
            r == self.format,
    {
        self.format
    }

    fn components(&self) -> (r: u8)
        ensures
            r == self.components,
            self.format.spec_components() == Some(r),
    {
        proof {
            use_type_invariant(self);
        }
        self.components
    }
}

impl VideoBuffer {
    pub closed spec fn spec_data(self) -> Seq<u8> {
        self.data@
    }

    pub closed spec fn spec_width(self) -> u32 {
        self.width
    }

    pub closed spec fn spec_height(self) -> u32 {
        self.height
    }

    pub closed spec fn spec_format(self) -> PixelFormat {
        self.format.format
    }

    pub closed spec fn spec_components(self) -> u8 {
        self.format.components
    }

    pub closed spec fn spec_data_is_in_frame(self) -> bool {
        self.data_is_in_frame
    }

    /// The number of components of the pixel format (those of its descriptor).
    pub fn components(&self) -> (r: u8)
        ensures
            r == self.spec_components(),
            self.spec_format().spec_components() == Some(r),
    {
        self.format.components()
    }

    /// The size and format the buffer's frame must have.
    pub open spec fn spec_shape(self) -> FrameShape {
        FrameShape {
            width: self.spec_width(),
            height: self.spec_height(),
            format: self.spec_format(),
        }
    }

    /// An empty RGB24 buffer of size 0×0.
    pub fn new() -> (r: Self)
        ensures
            r.spec_data() == Seq::<u8>::empty(),
            r.spec_width() == 0,
            r.spec_height() == 0,
            r.spec_format() == PixelFormat::RGB24,
            !r.spec_data_is_in_frame(),
    {
        Self {
            data: Vec::new(),
            width: 0,
            height: 0,
            format: FormatInfo::new(PixelFormat::RGB24),
            data_is_in_frame: false,
        }
    }

    /// Sets the resolution. Returns whether it changed (a change is reported to the user).
    pub fn set_resolution(&mut self, width: u32, height: u32) -> (changed: bool)
        ensures
            changed == (old(self).spec_width() != width || old(self).spec_height() != height),
            final(self).spec_width() == width,
            final(self).spec_height() == height,
            final(self).spec_format() == old(self).spec_format(),
            final(self).spec_components() == old(self).spec_components(),
            final(self).spec_data() == old(self).spec_data(),
            final(self).spec_data_is_in_frame() == old(self).spec_data_is_in_frame(),
    {
        if self.width != width || self.height != height {
            self.width = width;
            self.height = height;
            true
        } else {
            false
        }
    }

    /// Sets the pixel format, and with it the number of components. Returns whether it changed
    /// (a change is reported to the user). A new format must have a descriptor.
    pub fn set_format(&mut self, format: PixelFormat) -> (changed: bool)
        requires
            format != old(self).spec_format() ==> format.spec_components() is Some,
        ensures
            changed == (format != old(self).spec_format()),
            final(self).spec_format() == format,
            final(self).spec_width() == old(self).spec_width(),
            final(self).spec_height() == old(self).spec_height(),
            final(self).spec_data() == old(self).spec_data(),
            final(self).spec_data_is_in_frame() == old(self).spec_data_is_in_frame(),
    {
        if self.format.format() != format {
            self.format = FormatInfo::new(format);
            true
        } else {
            false
        }
    }

    /// Sizes the pixel data to the resolution and format and hands it out for writing; the
    /// pixels are then in the data, not in the frame.
    pub fn as_mut_slice(&mut self) -> (r: &mut [u8])
        requires
            old(self).spec_width() * old(self).spec_height() <= u32::MAX,
            old(self).spec_width() * old(self).spec_height() * old(self).spec_components()
                <= u32::MAX,
        ensures
            r@ == spec_resized(
                old(self).spec_data(),
                (old(self).spec_width() * old(self).spec_height() * old(self).spec_components()) as nat,
            ),
            final(self).spec_data() == final(r)@,
            !final(self).spec_data_is_in_frame(),
            final(self).spec_width() == old(self).spec_width(),
            final(self).spec_height() == old(self).spec_height(),
            final(self).spec_format() == old(self).spec_format(),
            final(self).spec_components() == old(self).spec_components(),
    {
        self.data_is_in_frame = false;
        let len = (self.width * self.height * self.format.components() as u32) as usize;
        self.data.resize(len, 0);
        proof {
            let old_data = old(self).spec_data();
            if len > old_data.len() {
                assert(self.data@ =~= spec_resized(old_data, len as nat));
            } else {
                assert(self.data@ =~= spec_resized(old_data, len as nat));
            }
        }
        self.data.as_mut_slice()
    }

    /// Returns the size and pixel format the frame must have.
    pub fn shape(&self) -> (r: FrameShape)
        ensures
            r == self.spec_shape(),
    {
        FrameShape { width: self.width, height: self.height, format: self.format.format() }
    }

    /// Hands out the frame for writing: the pixels are then in the frame. Returns whether the
    /// frame, now of shape `frame`, must be made anew with the buffer's shape.
    pub fn get_frame(&mut self, frame: FrameShape) -> (remake: bool)
        ensures
            remake == (frame != old(self).spec_shape()),
            final(self).spec_data_is_in_frame(),
            final(self).spec_data() == old(self).spec_data(),
            final(self).spec_shape() == old(self).spec_shape(),
            final(self).spec_components() == old(self).spec_components(),
    {
        self.data_is_in_frame = true;
        frame != self.shape()
    }

    /// Returns whether a frame of shape `frame` must be made anew before the buffer can be
    /// copied into it.
    pub fn frame_needs_remake(&self, frame: FrameShape) -> (r: bool)
        ensures
            r == (frame != self.spec_shape()),
    {
        frame != self.shape()
    }

    /// The pixel data, rows bottom-up.
    pub fn data(&self) -> (r: &[u8])
        ensures
            r@ == self.spec_data(),
    {
        self.data.as_slice()
    }

    /// Returns whether the pixels are in the frame rather than in the data.
    pub fn data_is_in_frame(&self) -> (r: bool)
        ensures
            r == self.spec_data_is_in_frame(),
    {
        self.data_is_in_frame
    }

    /// The number of bytes per pixel in one plane of a frame with `planes` planes: all
    /// components for a packed format, one for a planar one.
    pub fn components_per_plane(&self, planes: usize) -> (r: usize)
        ensures
            r == (if planes == 1 { self.spec_components() as usize } else { 1 }),
    {
        if planes == 1 {
            self.format.components() as usize
        } else {
            1
        }
    }

    /// Copies one plane from the data into `plane` (of a frame), starting at `offset` in the
    /// data: `plane_height` rows of `plane_width * components_per_plane` bytes, the first row
    /// of the data becoming the last row of the plane. Returns the offset after the plane.
    pub fn copy_plane_to_frame(
        &self,
        offset: usize,
        plane: &mut [u8],
        stride: usize,
        plane_width: usize,
        plane_height: usize,
        components_per_plane: usize,
    ) -> (r: usize)
        requires
            offset + plane_height * (plane_width * components_per_plane) <= self.spec_data().len(),
            plane_height > 0 ==> (plane_height - 1) * stride + plane_width * components_per_plane
                <= old(plane)@.len(),
        ensures
            r == offset + plane_height * (plane_width * components_per_plane),
            final(plane)@ == spec_rows_copied(
                old(plane)@,
                self.spec_data(),
                offset as int,
                stride as int,
                (plane_width * components_per_plane) as int,
                plane_height as int,
                plane_height as nat,
            ),
            final(plane)@.len() == old(plane)@.len(),
            plane_width * components_per_plane <= stride ==> forall|y: int, x: int|
                0 <= y < plane_height && 0 <= x < plane_width * components_per_plane
                    ==> final(plane)@[#[trigger] flipped_position(
                    plane_height as int,
                    stride as int,
                    y,
                    x,
                )] == self.spec_data()[source_position(
                    offset as int,
                    (plane_width * components_per_plane) as int,
                    y,
                    x,
                )],
            plane_width * components_per_plane <= stride ==> forall|p: int|
                0 <= p < old(plane)@.len() && !in_rows(
                    p,
                    stride as int,
                    (plane_width * components_per_plane) as int,
                    0,
                    plane_height as int,
                ) ==> #[trigger] final(plane)@[p] == old(plane)@[p],
    {
        if plane_height == 0 {
            return offset;
        }
        let plane_len = plane.len();
        assert(0 <= (plane_height - 1) * stride) by (nonlinear_arith)
            requires
                plane_height > 0,
        ;
        assert(plane_width * components_per_plane <= plane_len);
        let length = plane_width * components_per_plane;
        copy_rows_flipped(self.data.as_slice(), offset, plane, stride, length, plane_height)
    }
}

/// Reads a bitrate setting given in kbit/s and returns it in bit/s; `None` when the setting is
/// not an unsigned integer.
pub fn parse_bitrate(s: &str) -> (r: Option<usize>)
    requires
        spec_parse_usize(s@) matches Some(k) ==> k * 1000 <= usize::MAX,
    ensures
        r == (match spec_parse_usize(s@) {
            Some(k) => Some((k * 1000) as usize),
            None => None,
        }),
{
    match parse_usize(s) {
        Some(k) => Some(k * 1000),
        None => None,
    }
}

} // verus!
