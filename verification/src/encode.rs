use vstd::prelude::*;

use crate::avcodec::PixelFormat;
use vstd::arithmetic::div_mod::lemma_fundamental_div_mod_converse;

verus! {

/// The sample rate of Half-Life's sound.
pub const HL_SAMPLE_RATE: i32 = 22050;

/// Why an encoder could not be set up.
#[derive(Debug, Clone, Copy, PartialEq, Eq, Structural)]
pub enum EncoderError {
    /// The selected video encoder does not support the chosen pixel format.
    UnsupportedPixelFormat,
}

/// Chooses the pixel format of the video encoder.
///
/// With no format requested, the encoder's first supported format is taken, or YUV420P when the
/// encoder does not list its formats. A requested format is taken if the encoder supports it
/// (or does not list its formats); otherwise the choice fails.
pub fn select_video_pixel_format(supported: Option<&[PixelFormat]>, requested: PixelFormat) -> (r:
    Result<PixelFormat, EncoderError>)
    requires
        requested == PixelFormat::Unspecified && supported is Some ==> supported->0@.len() > 0,
    ensures
        r == (match supported {
            Some(formats) => if requested == PixelFormat::Unspecified {
                Ok(formats@[0])
            } else if formats@.contains(requested) {
                Ok(requested)
            } else {
                Err(EncoderError::UnsupportedPixelFormat)
            },
            None => if requested == PixelFormat::Unspecified {
                Ok(PixelFormat::YUV420P)
            } else {
                Ok(requested)
            },
        }),
{
    match supported {
        Some(formats) => {
            if requested == PixelFormat::Unspecified {
                Ok(formats[0])
            } else {
                let mut i: usize = 0;
                while i < formats.len()
                    invariant
                        i <= formats@.len(),
                        supported == Some(formats),
                        requested != PixelFormat::Unspecified,
                        forall|j: int| 0 <= j < i ==> formats@[j] != requested,
                    decreases formats@.len() - i,
                {
                    if formats[i] == requested {
                        assert(formats@[i as int] == requested);
                        return Ok(requested);
                    }
                    i = i + 1;
                }
                Err(EncoderError::UnsupportedPixelFormat)
            }
        },
        None => {
            if requested == PixelFormat::Unspecified {
                Ok(PixelFormat::YUV420P)
            } else {
                Ok(requested)
            }
        },
    }
}

/// Whether the encoder writes the BT.470BG color space and the MPEG color range into the output
/// file, so that players know how to display it: for YUV420P and YUV444P.
pub fn uses_bt470bg_color(format: PixelFormat) -> (r: bool)
    ensures
        r == (format == PixelFormat::YUV420P || format == PixelFormat::YUV444P),
{
    format == PixelFormat::YUV420P || format == PixelFormat::YUV444P
}

/// How far a sample rate is from Half-Life's.
pub open spec fn rate_distance(rate: int) -> int {
    if rate >= HL_SAMPLE_RATE {
        rate - HL_SAMPLE_RATE
    } else {
        HL_SAMPLE_RATE - rate
    }
}

/// Whether `rates[k]` is the first of the rates closest to Half-Life's sample rate.
pub open spec fn is_first_closest_rate(rates: Seq<i32>, k: int) -> bool {
    &&& 0 <= k < rates.len()
    &&& forall|j: int| 0 <= j < rates.len() ==> rate_distance(rates[k] as int) <= rate_distance(
        #[trigger] rates[j] as int,
    )
    &&& forall|j: int| 0 <= j < k ==> rate_distance(rates[k] as int) < rate_distance(
        #[trigger] rates[j] as int,
    )
}

/// Chooses the audio sample rate: the supported rate closest to Half-Life's (the first of
/// them on a tie), or Half-Life's own when the encoder does not list its rates.
pub fn select_sample_rate(rates: Option<&[i32]>) -> (r: i32)
    requires
        rates is Some ==> rates->0@.len() > 0,
        rates is Some ==> forall|j: int|
            0 <= j < rates->0@.len() ==> #[trigger] rates->0@[j] > i32::MIN + HL_SAMPLE_RATE,
    ensures
        rates is None ==> r == HL_SAMPLE_RATE,
        rates is Some ==> exists|k: int|
            is_first_closest_rate(rates->0@, k) && r == #[trigger] rates->0@[k],
{
    match rates {
        None => HL_SAMPLE_RATE,
        Some(rates) => {
            let mut best: usize = 0;
            let mut i: usize = 1;
            while i < rates.len()
                invariant
                    1 <= i <= rates@.len(),
                    best < i,
                    forall|j: int|
                        0 <= j < rates@.len() ==> #[trigger] rates@[j] > i32::MIN + HL_SAMPLE_RATE,
                    forall|j: int|
                        0 <= j < i ==> rate_distance(rates@[best as int] as int) <= rate_distance(
                            #[trigger] rates@[j] as int,
                        ),
                    forall|j: int|
                        0 <= j < best ==> rate_distance(rates@[best as int] as int)
                            < rate_distance(#[trigger] rates@[j] as int),
                decreases rates@.len() - i,
            {
                let r = rates[i];
                let b = rates[best];
                let d_r = if r >= HL_SAMPLE_RATE { r - HL_SAMPLE_RATE } else { HL_SAMPLE_RATE - r };
                let d_b = if b >= HL_SAMPLE_RATE { b - HL_SAMPLE_RATE } else { HL_SAMPLE_RATE - b };
                if d_r < d_b {
                    best = i;
                }
                i = i + 1;
            }
            assert(is_first_closest_rate(rates@, best as int));
            rates[best]
        },
    }
}

/// Chooses the audio sample format: the encoder's first supported format, or `fallback`
/// (Half-Life's own format) when the encoder does not list its formats.
pub fn select_audio_sample_format<T: Copy>(supported: Option<&[T]>, fallback: T) -> (r: T)
    requires
        supported is Some ==> supported->0@.len() > 0,
    ensures
        r == (match supported {
            Some(formats) => formats@[0],
            None => fallback,
        }),
{
    match supported {
        Some(formats) => formats[0],
        None => fallback,
    }
}

/// The number of samples in an audio frame: the encoder's frame size, or 1024 when the encoder
/// accepts any size (reports 0).
pub fn audio_frame_size(encoder_frame_size: u32) -> (r: usize)
    ensures
        r == (if encoder_frame_size == 0 { 1024 } else { encoder_frame_size as usize }),
{
    if encoder_frame_size == 0 {
        1024
    } else {
        encoder_frame_size as usize
    }
}

/// Where sound accumulates before it is resampled: one audio frame of 16-bit stereo samples and
/// the number of samples written into it so far.
pub struct AudioInput {
    frame: Vec<(i16, i16)>,
    position: usize,
}

/// The samples of the given frames, frame by frame.
pub open spec fn frames_view(frames: Seq<Vec<(i16, i16)>>) -> Seq<Seq<(i16, i16)>> {
    frames.map_values(|f: Vec<(i16, i16)>| f@)
}

fn copy_samples(samples: &Vec<(i16, i16)>) -> (r: Vec<(i16, i16)>)
    ensures
        r@ == samples@,
{
    let mut r: Vec<(i16, i16)> = Vec::new();
    let mut i: usize = 0;
    while i < samples.len()
        invariant
            i <= samples@.len(),
            r@ == samples@.take(i as int),
        decreases samples@.len() - i,
    {
        r.push(samples[i]);
        assert(samples@.take(i + 1) =~= samples@.take(i as int).push(samples@[i as int]));
        i = i + 1;
    }
    assert(samples@.take(samples@.len() as int) =~= samples@);
    r
}

impl AudioInput {
    /// The samples of the frame.
    pub closed spec fn spec_frame(self) -> Seq<(i16, i16)> {
        self.frame@
    }

    /// The number of samples written into the frame so far.
    pub closed spec fn spec_position(self) -> nat {
        self.position as nat
    }

    /// The samples written into the frame so far.
    pub open spec fn spec_held(self) -> Seq<(i16, i16)> {
        self.spec_frame().take(self.spec_position() as int)
    }

    /// The frame is not empty and the position lies within it.
    #[verifier::type_invariant]
    pub open spec fn wf(self) -> bool {
        &&& self.spec_position() <= self.spec_frame().len()
        &&& self.spec_frame().len() > 0
    }

    /// A silent frame of `frame_size` samples, none written yet.
    pub fn new(frame_size: usize) -> (r: Self)
        requires
            frame_size > 0,
        ensures
            r.spec_frame() == Seq::new(frame_size as nat, |i: int| (0i16, 0i16)),
            r.spec_position() == 0,
    {
        let mut frame: Vec<(i16, i16)> = Vec::new();
        while frame.len() < frame_size
            invariant
                frame.len() <= frame_size,
                forall|i: int| 0 <= i < frame@.len() ==> #[trigger] frame@[i] == (0i16, 0i16),
            decreases frame_size - frame.len(),
        {
            frame.push((0, 0));
        }
        assert(frame@ =~= Seq::new(frame_size as nat, |i: int| (0i16, 0i16)));
        Self { frame, position: 0 }
    }

    /// The number of samples a frame holds.
    pub fn capacity(&self) -> (r: usize)
        ensures
            r == self.spec_frame().len(),
            r > 0,
    {
        proof {
            use_type_invariant(self);
        }
        self.frame.len()
    }

    /// The number of samples written into the frame so far.
    pub fn position(&self) -> (r: usize)
        ensures
            r == self.spec_position(),
            r <= self.spec_frame().len(),
    {
        proof {
            use_type_invariant(self);
        }
        self.position
    }

    /// The samples of the frame, to be resampled once it is full.
    pub fn frame(&self) -> (r: &[(i16, i16)])
        ensures
            r@ == self.spec_frame(),
    {
        self.frame.as_slice()
    }

    /// Whether the frame is full and must be resampled before more samples fit.
    pub fn is_full(&self) -> (r: bool)
        ensures
            r == (self.spec_position() == self.spec_frame().len()),
    {
        self.position == self.frame.len()
    }

    /// Moves as many of `samples[start..]` as fit into the frame, after the samples already
    /// there. Returns the index of the first sample not moved.
    pub fn fill(&mut self, samples: &[(i16, i16)], start: usize) -> (next: usize)
        requires
            start <= samples@.len(),
        ensures
            ({
                let pos = old(self).spec_position();
                let space = old(self).spec_frame().len() - pos;
                let moved = if samples@.len() - start < space {
                    samples@.len() - start
                } else {
                    space
                };
                &&& next == start + moved
                &&& final(self).spec_position() == old(self).spec_position() + moved
                &&& final(self).spec_frame().len() == old(self).spec_frame().len()
                &&& forall|i: int|
                    0 <= i < moved ==> #[trigger] final(self).spec_frame()[pos + i] == samples@[start + i]
                &&& forall|i: int|
                    0 <= i < old(self).spec_frame().len() && !(pos <= i < pos + moved)
                        ==> #[trigger] final(self).spec_frame()[i] == old(self).spec_frame()[i]
            }),
    {
        proof {
            use_type_invariant(&*self);
        }
        let (mut frame, position) = self.take_parts();
        let available_samples = samples.len() - start;
        let available_space = frame.len() - position;
        let to_move = if available_samples < available_space {
            available_samples
        } else {
            available_space
        };
        let ghost before = frame@;
        let frame_len = frame.len();
        let samples_len = samples.len();
        let mut i: usize = 0;
        while i < to_move
            invariant
                i <= to_move,
                frame_len == frame@.len(),
                samples_len == samples@.len(),
                position + to_move <= frame@.len(),
                start + to_move <= samples@.len(),
                frame@.len() == before.len(),
                forall|j: int| 0 <= j < i ==> #[trigger] frame@[position + j] == samples@[start + j],
                forall|j: int|
                    0 <= j < before.len() && !(position <= j < position + i) ==> #[trigger] frame@[j]
                        == before[j],
            decreases to_move - i,
        {
            frame.set(position + i, samples[start + i]);
            i = i + 1;
        }
        *self = AudioInput { frame, position: position + to_move };
        start + to_move
    }

    /// Starts the next frame after a full one has been resampled.
    pub fn frame_done(&mut self)
        ensures
            final(self).spec_position() == 0,
            final(self).spec_frame() == old(self).spec_frame(),
    {
        proof {
            use_type_invariant(&*self);
        }
        self.position = 0;
    }

    /// Takes 16-bit stereo sound: moves `samples` into the frame, handing out every frame that
    /// fills up (to be resampled and encoded, in order) and starting the next one.
    ///
    /// No sound is lost or reordered: the frames handed out followed by the samples then held
    /// are the samples held before followed by `samples`. Each frame handed out is full, and of
    /// the frame's storage beyond the held samples, what the last full frame (or, without one,
    /// the frame before) had there stays.
    pub fn take_audio(&mut self, samples: &[(i16, i16)]) -> (frames: Vec<Vec<(i16, i16)>>)
        ensures
            final(self).spec_frame().len() == old(self).spec_frame().len(),
            forall|j: int|
                0 <= j < frames@.len() ==> (#[trigger] frames@[j])@.len() == old(
                    self,
                ).spec_frame().len(),
            frames_view(frames@).flatten() + final(self).spec_held() == old(self).spec_held()
                + samples@,
            final(self).spec_frame().skip(final(self).spec_position() as int) == (if frames@.len()
                == 0 {
                old(self).spec_frame()
            } else {
                frames@.last()@
            }).skip(final(self).spec_position() as int),
            old(self).spec_position() < old(self).spec_frame().len() || samples@.len() > 0 ==> {
                &&& frames@.len() == (old(self).spec_position() + samples@.len()) / old(
                    self,
                ).spec_frame().len()
                &&& final(self).spec_position() == (old(self).spec_position() + samples@.len())
                    % old(self).spec_frame().len()
            },
            samples@.len() == 0 ==> frames@.len() == 0 && *final(self) == *old(self),
    {
        proof {
            use_type_invariant(&*self);
        }
        let ghost held0 = self.spec_held();
        let ghost frame0 = self.frame@;
        let ghost p0 = self.position as int;
        let cap = self.frame.len();
        let n = samples.len();
        let mut frames: Vec<Vec<(i16, i16)>> = Vec::new();
        assert(frames_view(frames@) =~= Seq::<Seq<(i16, i16)>>::empty());
        if n == 0 {
            proof {
                assert(samples@ =~= Seq::<(i16, i16)>::empty());
                assert(frames_view(frames@).flatten() + self.spec_held() =~= held0 + samples@);
                if p0 < cap {
                    lemma_fundamental_div_mod_converse(p0, cap as int, 0, p0);
                }
            }
            return frames;
        }
        let mut i: usize = 0;
        assert(frames_view(frames@).flatten() + self.spec_held() =~= held0 + samples@.take(0));
        while i < n
            invariant
                self.wf(),
                self.frame@.len() == cap,
                frame0.len() == cap,
                n == samples@.len(),
                i <= n,
                forall|j: int| 0 <= j < frames@.len() ==> (#[trigger] frames@[j])@.len() == cap,
                frames_view(frames@).flatten() + self.spec_held() == held0 + samples@.take(i as int),
                self.frame@.skip(self.position as int) == (if frames@.len() == 0 {
                    frame0
                } else {
                    frames@.last()@
                }).skip(self.position as int),
                frames@.len() * cap + self.position == p0 + i,
                i > 0 ==> self.position < cap,
            decreases n - i, (if self.position == cap { 1int } else { 0int }),
        {
            let ghost pos = self.position as int;
            let ghost before = self.frame@;
            let ghost basis = if frames@.len() == 0 { frame0 } else { frames@.last()@ };
            let ghost flat = frames_view(frames@).flatten();
            proof {
                if frames@.len() > 0 {
                    assert(frames@[frames@.len() - 1]@.len() == cap);
                }
                assert(basis.len() == cap);
            }
            let next = self.fill(samples, i);
            let ghost pos1 = self.position as int;
            let ghost after = self.frame@;
            proof {
                assert forall|k: int| 0 <= k < pos1 implies after.take(pos1)[k] == (before.take(pos)
                    + samples@.subrange(i as int, next as int))[k] by {
                    if k >= pos {
                        let d = k - pos;
                        assert(after[pos + d] == samples@[i + d]);
                    }
                }
                assert(after.take(pos1) =~= before.take(pos) + samples@.subrange(i as int, next as int));
                assert(samples@.take(next as int) =~= samples@.take(i as int) + samples@.subrange(
                    i as int,
                    next as int,
                ));
                assert(flat + after.take(pos1) =~= (flat + before.take(pos)) + samples@.subrange(
                    i as int,
                    next as int,
                ));
                assert forall|k: int| 0 <= k < cap - pos1 implies after.skip(pos1)[k] == basis.skip(
                    pos1,
                )[k] by {
                    assert(after[pos1 + k] == before[pos1 + k]);
                    assert(before.skip(pos)[pos1 - pos + k] == basis.skip(pos)[pos1 - pos + k]);
                }
                assert(after.skip(pos1) =~= basis.skip(pos1));
            }
            if self.is_full() {
                let full = copy_samples(&self.frame);
                let ghost frames_before = frames@;
                frames.push(full);
                self.frame_done();
                proof {
                    assert(frames_view(frames@) =~= frames_view(frames_before).push(after));
                    frames_view(frames_before).lemma_flatten_push(after);
                    assert(after.take(pos1) =~= after);
                    assert(self.spec_held() =~= Seq::<(i16, i16)>::empty());
                    assert(frames_view(frames@).flatten() + self.spec_held() =~= flat + after.take(
                        pos1,
                    ));
                    assert(self.frame@.skip(0) =~= after);
                    assert((frames_before.len() + 1) * cap == frames_before.len() * cap + cap)
                        by (nonlinear_arith);
                }
            }
            i = next;
        }
        proof {
            assert(samples@.take(n as int) =~= samples@);
            if p0 < cap || n > 0 {
                lemma_fundamental_div_mod_converse(
                    p0 + n,
                    cap as int,
                    frames@.len() as int,
                    self.position as int,
                );
            }
        }
        frames
    }

    /// Writes silence over the first `capacity - position` samples of the frame before the
    /// last, partial frame is resampled at the end of encoding.
    pub fn pad_with_silence(&mut self)
        ensures
            final(self).spec_position() == old(self).spec_position(),
            final(self).spec_frame().len() == old(self).spec_frame().len(),
            forall|i: int|
                0 <= i < old(self).spec_frame().len() ==> #[trigger] final(self).spec_frame()[i] == (
                if i < old(self).spec_frame().len() - old(self).spec_position() {
                    (0i16, 0i16)
                } else {
                    old(self).spec_frame()[i]
                }),
    {
        proof {
            use_type_invariant(&*self);
        }
        let (mut frame, position) = self.take_parts();
        let ghost before = frame@;
        let available_space = frame.len() - position;
        let mut i: usize = 0;
        while i < available_space
            invariant
                i <= available_space,
                available_space == before.len() - position,
                frame@.len() == before.len(),
                forall|j: int|
                    0 <= j < before.len() ==> #[trigger] frame@[j] == (if j < i {
                        (0i16, 0i16)
                    } else {
                        before[j]
                    }),
            decreases available_space - i,
        {
            frame.set(i, (0, 0));
            i = i + 1;
        }
        *self = AudioInput { frame, position };
    }

    /// Moves the frame and the position out, leaving a placeholder frame of one sample.
    fn take_parts(&mut self) -> (r: (Vec<(i16, i16)>, usize))
        ensures
            r.0@ == old(self).spec_frame(),
            r.1 == old(self).spec_position(),
            r.1 <= r.0@.len(),
            r.0@.len() > 0,
    {
        proof {
            use_type_invariant(&*self);
        }
        let mut placeholder: Vec<(i16, i16)> = Vec::new();
        placeholder.push((0, 0));
        let mut taken = AudioInput { frame: placeholder, position: 0 };
        std::mem::swap(self, &mut taken);
        proof {
            use_type_invariant(&taken);
        }
        let AudioInput { frame, position } = taken;
        (frame, position)
    }
}

/// Whether `c` is white space in Unicode (the `White_Space` property, as `char::is_whitespace`
/// tests it).
pub open spec fn is_white_space(c: char) -> bool {
    ||| '\u{9}' <= c && c <= '\u{d}'
    ||| c == ' '
    ||| c == '\u{85}'
    ||| c == '\u{a0}'
    ||| c == '\u{1680}'
    ||| '\u{2000}' <= c && c <= '\u{200a}'
    ||| c == '\u{2028}'
    ||| c == '\u{2029}'
    ||| c == '\u{202f}'
    ||| c == '\u{205f}'
    ||| c == '\u{3000}'
}

/// Returns whether `c` is white space in Unicode.
pub fn is_white_space_char(c: char) -> (r: bool)
    ensures
        r == is_white_space(c),
{
    ('\u{9}' <= c && c <= '\u{d}') || c == ' ' || c == '\u{85}' || c == '\u{a0}' || c
        == '\u{1680}' || ('\u{2000}' <= c && c <= '\u{200a}') || c == '\u{2028}' || c
        == '\u{2029}' || c == '\u{202f}' || c == '\u{205f}' || c == '\u{3000}'
}

/// The length of the word at the start of `s`: the characters before the first white space.
pub open spec fn word_len(s: Seq<char>) -> nat
    decreases s.len(),
{
    if s.len() == 0 || is_white_space(s[0]) {
        0
    } else {
        1 + word_len(s.drop_first())
    }
}

/// The word at the start of `s` lies within `s`, and is not empty when `s` starts with a
/// character that is not white space.
pub proof fn lemma_word_len_bound(s: Seq<char>)
    ensures
        word_len(s) <= s.len(),
        s.len() > 0 && !is_white_space(s[0]) ==> word_len(s) >= 1,
    decreases s.len(),
{
    if s.len() > 0 && !is_white_space(s[0]) {
        lemma_word_len_bound(s.drop_first());
    }
}

/// The words of `s`: its maximal runs of characters that are not white space, in order (what
/// `str::split_whitespace` yields).
pub open spec fn spec_words(s: Seq<char>) -> Seq<Seq<char>>
    decreases s.len(),
{
    if s.len() == 0 {
        Seq::empty()
    } else if is_white_space(s[0]) {
        spec_words(s.drop_first())
    } else {
        let k = word_len(s);
        proof {
            lemma_word_len_bound(s);
        }
        seq![s.take(k as int)] + spec_words(s.skip(k as int))
    }
}

/// Whether `k` is the position of the first `=` in `w`.
pub open spec fn is_first_equals(w: Seq<char>, k: int) -> bool {
    &&& 0 <= k < w.len()
    &&& w[k] == '='
    &&& forall|j: int| 0 <= j < k ==> w[j] != '='
}

/// A word `key=value` split at its first `=`; nothing for a word without `=`.
pub open spec fn spec_key_value(w: Seq<char>) -> Option<(Seq<char>, Seq<char>)> {
    if exists|k: int| is_first_equals(w, k) {
        let k = choose|k: int| is_first_equals(w, k);
        Some((w.take(k), w.skip(k + 1)))
    } else {
        None
    }
}

/// The `key=value` pairs among the given words, in order.
pub open spec fn spec_key_values(words: Seq<Seq<char>>) -> Seq<(Seq<char>, Seq<char>)>
    decreases words.len(),
{
    if words.len() == 0 {
        Seq::empty()
    } else {
        let rest = spec_key_values(words.drop_first());
        match spec_key_value(words[0]) {
            Some(kv) => seq![kv] + rest,
            None => rest,
        }
    }
}

/// The settings written in `s`: its white-space separated words of the form `key=value`, split
/// at their first `=`; other words are ignored.
pub open spec fn spec_settings(s: Seq<char>) -> Seq<(Seq<char>, Seq<char>)> {
    spec_key_values(spec_words(s))
}

/// The words among `words` that hold a `=`, in order.
pub open spec fn words_with_equals(words: Seq<Seq<char>>) -> Seq<Seq<char>>
    decreases words.len(),
{
    if words.len() == 0 {
        Seq::empty()
    } else {
        let rest = words_with_equals(words.drop_last());
        if words.last().contains('=') {
            rest.push(words.last())
        } else {
            rest
        }
    }
}

proof fn lemma_first_equals_exists(w: Seq<char>)
    requires
        w.contains('='),
    ensures
        exists|k: int| is_first_equals(w, k),
    decreases w.len(),
{
    let init = w.drop_last();
    if init.contains('=') {
        lemma_first_equals_exists(init);
        let k = choose|k: int| is_first_equals(init, k);
        assert forall|j: int| 0 <= j <= k implies w[j] == init[j] by {}
        assert(is_first_equals(w, k));
    } else {
        let j = choose|j: int| 0 <= j < w.len() && w[j] == '=';
        if j < w.len() - 1 {
            assert(init[j] == '=');
        }
        assert forall|i: int| 0 <= i < w.len() - 1 implies w[i] != '=' by {
            assert(w[i] == init[i]);
        }
        assert(is_first_equals(w, w.len() - 1));
    }
}

/// What a single word gives: a word with a `=` gives exactly one setting, the text before its
/// first `=` and all the text after it (whatever that holds, `=` included); a word without `=`
/// gives none.
pub proof fn lemma_key_value_of_word(w: Seq<char>)
    ensures
        w.contains('=') <==> spec_key_value(w) is Some,
        spec_key_value(w) matches Some(kv) ==> w == kv.0 + seq!['='] + kv.1 && !kv.0.contains(
            '=',
        ),
{
    if w.contains('=') {
        lemma_first_equals_exists(w);
        let k = choose|k: int| is_first_equals(w, k);
        assert(w =~= w.take(k) + seq!['='] + w.skip(k + 1));
        assert forall|j: int| 0 <= j < w.take(k).len() implies w.take(k)[j] != '=' by {
            assert(w.take(k)[j] == w[j]);
        }
    } else {
        if exists|k: int| is_first_equals(w, k) {
            let k = choose|k: int| is_first_equals(w, k);
            assert(w[k] == '=');
        }
    }
}

/// The settings read from a list of words: one for each word holding a `=`, in the order of
/// those words, each being the word split at its first `=`.
pub proof fn lemma_key_values_of_words(words: Seq<Seq<char>>)
    ensures
        spec_key_values(words).len() == words_with_equals(words).len(),
        forall|i: int|
            0 <= i < spec_key_values(words).len() ==> {
                &&& #[trigger] words_with_equals(words)[i] == spec_key_values(words)[i].0 + seq!['=']
                    + spec_key_values(words)[i].1
                &&& !spec_key_values(words)[i].0.contains('=')
            },
    decreases words.len(),
{
    if words.len() > 0 {
        let init = words.drop_last();
        let w = words.last();
        lemma_key_values_of_words(init);
        assert(words =~= init + seq![w]);
        lemma_key_values_append(init, seq![w]);
        assert(seq![w].drop_first() =~= Seq::<Seq<char>>::empty());
        assert(seq![w][0] == w);
        assert(spec_key_values(Seq::<Seq<char>>::empty()) =~= Seq::<(Seq<char>, Seq<char>)>::empty());
        reveal_with_fuel(spec_key_values, 2);
        lemma_key_value_of_word(w);
        let kv_init = spec_key_values(init);
        let with_init = words_with_equals(init);
        if w.contains('=') {
            let kv = spec_key_value(w)->0;
            assert(spec_key_values(seq![w]) =~= seq![kv]);
            assert(spec_key_values(words) =~= kv_init.push(kv));
            assert(words_with_equals(words) =~= with_init.push(w));
        } else {
            assert(spec_key_values(seq![w]) =~= Seq::<(Seq<char>, Seq<char>)>::empty());
            assert(spec_key_values(words) =~= kv_init);
            assert(words_with_equals(words) =~= with_init);
        }
    }
}

/// The settings written in `s`: one for each of its white-space separated words that holds a
/// `=`, in order, each being that word split at its first `=` (the value keeps any further
/// `=`); no word with a `=` is lost.
pub proof fn lemma_settings_split_words(s: Seq<char>)
    ensures
        spec_settings(s).len() == words_with_equals(spec_words(s)).len(),
        forall|i: int|
            0 <= i < spec_settings(s).len() ==> {
                &&& #[trigger] words_with_equals(spec_words(s))[i] == spec_settings(s)[i].0 + seq![
                    '=',
                ] + spec_settings(s)[i].1
                &&& !spec_settings(s)[i].0.contains('=')
            },
{
    lemma_key_values_of_words(spec_words(s));
}

/// The characters of a pair of strings.
pub open spec fn pair_view(p: (String, String)) -> (Seq<char>, Seq<char>) {
    (p.0@, p.1@)
}

proof fn lemma_key_values_append(a: Seq<Seq<char>>, b: Seq<Seq<char>>)
    ensures
        spec_key_values(a + b) == spec_key_values(a) + spec_key_values(b),
    decreases a.len(),
{
    if a.len() == 0 {
        assert(a + b =~= b);
    } else {
        assert((a + b).drop_first() =~= a.drop_first() + b);
        lemma_key_values_append(a.drop_first(), b);
    }
}

/// Splits a word at its first `=` into a key and a value.
pub fn parse_key_value(word: &str) -> (r: Option<(String, String)>)
    ensures
        r matches Some(p) ==> spec_key_value(word@) == Some(pair_view(p)),
        r is None ==> spec_key_value(word@) is None,
{
    let len = word.unicode_len();
    let mut k: usize = 0;
    while k < len && word.get_char(k) != '='
        invariant
            k <= len,
            len == word@.len(),
            forall|j: int| 0 <= j < k ==> word@[j] != '=',
        decreases len - k,
    {
        k = k + 1;
    }
    if k == len {
        assert(!exists|j: int| is_first_equals(word@, j));
        return None;
    }
    proof {
        assert(is_first_equals(word@, k as int));
        let c = choose|j: int| is_first_equals(word@, j);
        assert(c == k);
    }
    let key = String::from_str(word.substring_char(0, k));
    let value = String::from_str(word.substring_char(k + 1, len));
    assert(key@ =~= word@.take(k as int));
    assert(value@ =~= word@.skip(k + 1));
    Some((key, value))
}

/// Splits `s` into its words (what `str::split_whitespace` yields).
pub fn split_whitespace(s: &str) -> (r: Vec<String>)
    ensures
        r@.map_values(|w: String| w@) == spec_words(s@),
{
    let len = s.unicode_len();
    let mut words: Vec<String> = Vec::new();
    let mut i: usize = 0;
    assert(s@.skip(0) =~= s@);
    assert(words@.map_values(|w: String| w@) + spec_words(s@) =~= spec_words(s@));
    while i < len
        invariant
            i <= len,
            len == s@.len(),
            spec_words(s@) == words@.map_values(|w: String| w@) + spec_words(s@.skip(i as int)),
        decreases len - i,
    {
        let ghost rest = s@.skip(i as int);
        assert(rest.drop_first() =~= s@.skip(i + 1));
        if is_white_space_char(s.get_char(i)) {
            i = i + 1;
        } else {
            let mut j = i;
            while j < len && !is_white_space_char(s.get_char(j))
                invariant
                    i <= j <= len,
                    len == s@.len(),
                    rest == s@.skip(i as int),
                    word_len(rest) == (j - i) + word_len(s@.skip(j as int)),
                decreases len - j,
            {
                assert(s@.skip(j as int).drop_first() =~= s@.skip(j + 1));
                j = j + 1;
            }
            assert(word_len(s@.skip(j as int)) == 0);
            let word = String::from_str(s.substring_char(i, j));
            proof {
                lemma_word_len_bound(rest);
                assert(word@ =~= rest.take(word_len(rest) as int));
                assert(rest.skip(word_len(rest) as int) =~= s@.skip(j as int));
            }
            let ghost before = words@.map_values(|w: String| w@);
            words.push(word);
            assert(words@.map_values(|w: String| w@) =~= before.push(word@));
            assert(before.push(word@) + spec_words(s@.skip(j as int)) =~= before + (seq![word@]
                + spec_words(s@.skip(j as int))));
            i = j;
        }
    }
    assert(s@.skip(len as int) =~= Seq::<char>::empty());
    assert(words@.map_values(|w: String| w@) + Seq::<Seq<char>>::empty() =~= words@.map_values(
        |w: String| w@,
    ));
    words
}

/// Reads the settings written in `s`: its white-space separated words of the form
/// `key=value`, in order. Words without `=` are ignored.
pub fn parse_settings(s: &str) -> (r: Vec<(String, String)>)
    ensures
        r@.map_values(|p: (String, String)| pair_view(p)) == spec_settings(s@),
        r@.len() == words_with_equals(spec_words(s@)).len(),
        forall|i: int|
            0 <= i < r@.len() ==> {
                &&& #[trigger] words_with_equals(spec_words(s@))[i] == r@[i].0@ + seq!['=']
                    + r@[i].1@
                &&& !r@[i].0@.contains('=')
            },
{
    let words = split_whitespace(s);
    let ghost ws = words@.map_values(|w: String| w@);
    let mut settings: Vec<(String, String)> = Vec::new();
    let mut i: usize = 0;
    while i < words.len()
        invariant
            i <= words@.len(),
            ws == words@.map_values(|w: String| w@),
            ws == spec_words(s@),
            settings@.map_values(|p: (String, String)| pair_view(p)) == spec_key_values(
                ws.take(i as int),
            ),
        decreases words@.len() - i,
    {
        let ghost before = settings@.map_values(|p: (String, String)| pair_view(p));
        proof {
            assert(ws.take(i + 1) =~= ws.take(i as int) + seq![ws[i as int]]);
            lemma_key_values_append(ws.take(i as int), seq![ws[i as int]]);
            assert(seq![ws[i as int]].drop_first() =~= Seq::<Seq<char>>::empty());
            reveal_with_fuel(spec_key_values, 2);
            assert(words@[i as int]@ == ws[i as int]);
        }
        match parse_key_value(words[i].as_str()) {
            Some(kv) => {
                settings.push(kv);
                assert(settings@.map_values(|p: (String, String)| pair_view(p)) =~= before
                    + seq![pair_view(kv)]);
            },
            None => {
                assert(settings@.map_values(|p: (String, String)| pair_view(p)) =~= before
                    + Seq::<(Seq<char>, Seq<char>)>::empty());
            },
        }
        i = i + 1;
    }
    assert(ws.take(words@.len() as int) =~= ws);
    proof {
        lemma_settings_split_words(s@);
        let v = settings@.map_values(|p: (String, String)| pair_view(p));
        assert forall|i: int| 0 <= i < settings@.len() implies {
            &&& #[trigger] words_with_equals(spec_words(s@))[i] == settings@[i].0@ + seq!['=']
                + settings@[i].1@
            &&& !settings@[i].0@.contains('=')
        } by {
            assert(v[i] == pair_view(settings@[i]));
            assert(v[i] == spec_settings(s@)[i]);
        }
    }
    settings
}

/// The first word of `s`, if it has one.
pub fn first_word(s: &str) -> (r: Option<String>)
    ensures
        spec_words(s@).len() == 0 ==> r is None,
        spec_words(s@).len() > 0 ==> (r matches Some(w) && w@ == spec_words(s@)[0]),
{
    let words = split_whitespace(s);
    if words.len() == 0 {
        None
    } else {
        assert(words@.map_values(|w: String| w@)[0] == words@[0]@);
        Some(words[0].clone())
    }
}

/// The setting `name` with the first word of `value`, if `value` has a word.
pub open spec fn spec_first_word_setting(name: Seq<char>, value: Seq<char>) -> Seq<
    (Seq<char>, Seq<char>),
> {
    if spec_words(value).len() > 0 {
        seq![(name, spec_words(value)[0])]
    } else {
        Seq::empty()
    }
}

fn push_first_word_setting(settings: &mut Vec<(String, String)>, name: &str, value: &str)
    ensures
        final(settings)@.map_values(|p: (String, String)| pair_view(p)) == old(
            settings,
        )@.map_values(|p: (String, String)| pair_view(p)) + spec_first_word_setting(name@, value@),
{
    let ghost before = settings@.map_values(|p: (String, String)| pair_view(p));
    match first_word(value) {
        Some(word) => {
            let setting = (String::from_str(name), word);
            settings.push(setting);
            assert(settings@.map_values(|p: (String, String)| pair_view(p)) =~= before
                + spec_first_word_setting(name@, value@));
        },
        None => {
            assert(settings@.map_values(|p: (String, String)| pair_view(p)) =~= before
                + spec_first_word_setting(name@, value@));
        },
    }
}

/// 1 when `v` has a word, 0 otherwise.
pub open spec fn has_word(v: Seq<char>) -> int {
    if spec_words(v).len() > 0 {
        1
    } else {
        0
    }
}

/// The options the video encoder gets after its settings: `crf`, `preset` and `threads`, in
/// this order, each set to exactly the first word of its parameter whenever the parameter has a
/// word (whatever that word is), and each left out only when its parameter has no word; the
/// settings before them are kept as they are.
pub proof fn lemma_encoder_options(
    settings: Seq<(Seq<char>, Seq<char>)>,
    crf: Seq<char>,
    preset: Seq<char>,
    threads: Seq<char>,
)
    ensures
        ({
            let o = settings + spec_first_word_setting("crf"@, crf) + spec_first_word_setting(
                "preset"@,
                preset,
            ) + spec_first_word_setting("threads"@, threads);
            let n = settings.len() as int;
            &&& o.len() == n + has_word(crf) + has_word(preset) + has_word(threads)
            &&& o.take(n) == settings
            &&& spec_words(crf).len() > 0 ==> o[n] == ("crf"@, spec_words(crf)[0])
            &&& spec_words(preset).len() > 0 ==> o[n + has_word(crf)] == (
                "preset"@,
                spec_words(preset)[0],
            )
            &&& spec_words(threads).len() > 0 ==> o[n + has_word(crf) + has_word(preset)] == (
                "threads"@,
                spec_words(threads)[0],
            )
        }),
{
    let a = spec_first_word_setting("crf"@, crf);
    let b = spec_first_word_setting("preset"@, preset);
    let c = spec_first_word_setting("threads"@, threads);
    let o = settings + a + b + c;
    let n = settings.len() as int;
    assert(o.take(n) =~= settings);
    assert(a.len() == has_word(crf));
    assert(b.len() == has_word(preset));
    assert(c.len() == has_word(threads));
    if spec_words(crf).len() > 0 {
        assert(o[n] == a[0]);
    }
    if spec_words(preset).len() > 0 {
        assert(o[n + has_word(crf)] == b[0]);
    }
    if spec_words(threads).len() > 0 {
        assert(o[n + has_word(crf) + has_word(preset)] == c[0]);
    }
}

/// The options the video encoder is opened with: the `key=value` settings written in
/// `encoder_settings`, followed by `crf`, `preset` and `threads` set to the first word of the
/// respective parameter (each only if that parameter has a word).
pub fn video_encoder_options(encoder_settings: &str, crf: &str, preset: &str, vpx_threads: &str) -> (r:
    Vec<(String, String)>)
    ensures
        r@.map_values(|p: (String, String)| pair_view(p)) == spec_settings(encoder_settings@)
            + spec_first_word_setting("crf"@, crf@) + spec_first_word_setting("preset"@, preset@)
            + spec_first_word_setting("threads"@, vpx_threads@),
        ({
            let o = r@.map_values(|p: (String, String)| pair_view(p));
            let n = spec_settings(encoder_settings@).len() as int;
            &&& o.len() == n + has_word(crf@) + has_word(preset@) + has_word(vpx_threads@)
            &&& o.take(n) == spec_settings(encoder_settings@)
            &&& spec_words(crf@).len() > 0 ==> o[n] == ("crf"@, spec_words(crf@)[0])
            &&& spec_words(preset@).len() > 0 ==> o[n + has_word(crf@)] == (
                "preset"@,
                spec_words(preset@)[0],
            )
            &&& spec_words(vpx_threads@).len() > 0 ==> o[n + has_word(crf@) + has_word(preset@)]
                == ("threads"@, spec_words(vpx_threads@)[0])
        }),
{
    proof {
        lemma_encoder_options(spec_settings(encoder_settings@), crf@, preset@, vpx_threads@);
    }
    let mut options = parse_settings(encoder_settings);
    push_first_word_setting(&mut options, "crf", crf);
    push_first_word_setting(&mut options, "preset", preset);
    push_first_word_setting(&mut options, "threads", vpx_threads);
    options
}

/// Whether the pixel format converter must be built anew before it converts a frame of format
/// `input`: when none has been built yet, or the one there was built for another input format.
pub fn converter_needs_rebuild(built_for: Option<PixelFormat>, input: PixelFormat) -> (r: bool)
    ensures
        r == (match built_for {
            Some(format) => format != input,
            None => true,
        }),
{
    match built_for {
        Some(format) => format != input,
        None => true,
    }
}

} // verus!
