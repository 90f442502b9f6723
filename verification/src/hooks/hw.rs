use vstd::prelude::*;

use crate::avcodec::{c_int_to_u32, PixelFormat};
use crate::utils::MaybeUnavailable;
use crate::utils::parse::{parse_i32, spec_parse_i32};

verus! {

/// A stereo sample of the engine's paint buffer.
#[derive(Debug, Clone, Copy, PartialEq, Eq, Structural)]
pub struct PortableSamplePair {
    pub left: i32,
    pub right: i32,
}

/// A sample scaled by `volume / 256` (rounding down) and clamped to the 16-bit range, as
/// `Snd_WriteLinearBlastStereo16()` does it.
pub open spec fn spec_clamp_sample(sample: int, volume: int) -> i16 {
    let scaled = (sample * volume) / 256;
    if scaled > 32767 {
        32767i16
    } else if scaled < -32768 {
        -32768i16
    } else {
        scaled as i16
    }
}

/// Scales a sample by `volume / 256` (rounding down) and clamps it to the 16-bit range.
pub fn clamp_sample(sample: i32, volume: i32) -> (r: i16)
    requires
        i32::MIN <= sample * volume <= i32::MAX,
    ensures
        r == spec_clamp_sample(sample as int, volume as int),
{
    let product = sample * volume;
    let scaled = product >> 8u32;
    assert(scaled == product / 256) by (bit_vector)
        requires
            scaled == product >> 8u32,
    ;
    let clamped = if scaled > 32767 {
        32767
    } else if scaled < -32768 {
        -32768
    } else {
        scaled
    };
    clamped as i16
}

/// A sample pair as it goes into the captured sound.
pub open spec fn spec_stereo16(pair: PortableSamplePair, volume: int) -> (i16, i16) {
    (spec_clamp_sample(pair.left as int, volume), spec_clamp_sample(pair.right as int, volume))
}

/// The number of paint buffer entries that `S_TransferStereo16` writes out for the engine's
/// `end` and `paintedtime`: two per sample.
pub open spec fn spec_transfer_count(end: int, paintedtime: int) -> int {
    (end - paintedtime) * 2
}

/// Appends the first `(end - paintedtime) * 2` entries of the paint buffer (or all of it, if it
/// is shorter) to the captured sound, each scaled by `volume / 256` and clamped to 16 bits.
pub fn transfer_stereo16(
    paintbuffer: &[PortableSamplePair],
    end: i32,
    paintedtime: i32,
    volume: i32,
    sound: &mut Vec<(i16, i16)>,
)
    requires
        0 <= end - paintedtime <= i32::MAX,
        forall|i: int|
            0 <= i < paintbuffer@.len() && i < spec_transfer_count(end as int, paintedtime as int)
                ==> i32::MIN <= (#[trigger] paintbuffer@[i]).left * volume <= i32::MAX
                && i32::MIN <= paintbuffer@[i].right * volume <= i32::MAX,
    ensures
        ({
            let n = if spec_transfer_count(end as int, paintedtime as int) < paintbuffer@.len() {
                spec_transfer_count(end as int, paintedtime as int)
            } else {
                paintbuffer@.len() as int
            };
            final(sound)@ == old(sound)@ + paintbuffer@.take(n).map_values(
                |p: PortableSamplePair| spec_stereo16(p, volume as int),
            )
        }),
        final(sound)@.len() == old(sound)@.len() + (if 2 * (end - paintedtime)
            < paintbuffer@.len() {
            2 * (end - paintedtime)
        } else {
            paintbuffer@.len() as int
        }),
        final(sound)@.take(old(sound)@.len() as int) == old(sound)@,
        forall|i: int|
            0 <= i < final(sound)@.len() - old(sound)@.len() ==> #[trigger] final(sound)@[old(
                sound,
            )@.len() + i] == spec_stereo16(paintbuffer@[i], volume as int),
{
    let count = (end - paintedtime) as usize * 2;
    let n = if count < paintbuffer.len() {
        count
    } else {
        paintbuffer.len()
    };
    let ghost start = sound@;
    let mut i: usize = 0;
    while i < n
        invariant
            i <= n,
            n <= paintbuffer@.len(),
            n <= count,
            count == spec_transfer_count(end as int, paintedtime as int),
            forall|j: int|
                0 <= j < paintbuffer@.len() && j < count ==> i32::MIN <= (
                #[trigger] paintbuffer@[j]).left * volume <= i32::MAX && i32::MIN
                    <= paintbuffer@[j].right * volume <= i32::MAX,
            sound@ == start + paintbuffer@.take(i as int).map_values(
                |p: PortableSamplePair| spec_stereo16(p, volume as int),
            ),
        decreases n - i,
    {
        let sample = paintbuffer[i];
        let l16 = clamp_sample(sample.left, volume);
        let r16 = clamp_sample(sample.right, volume);
        sound.push((l16, r16));
        assert(paintbuffer@.take(i + 1) =~= paintbuffer@.take(i as int).push(sample));
        assert(paintbuffer@.take(i + 1).map_values(
            |p: PortableSamplePair| spec_stereo16(p, volume as int),
        ) =~= paintbuffer@.take(i as int).map_values(
            |p: PortableSamplePair| spec_stereo16(p, volume as int),
        ).push((l16, r16)));
        i = i + 1;
    }
    proof {
        let added = paintbuffer@.take(n as int).map_values(
            |p: PortableSamplePair| spec_stereo16(p, volume as int),
        );
        assert(sound@.take(start.len() as int) =~= start);
        assert forall|k: int| 0 <= k < sound@.len() - start.len() implies #[trigger] sound@[start.len()
            + k] == spec_stereo16(paintbuffer@[k], volume as int) by {
            assert(sound@[start.len() + k] == added[k]);
        }
    }
}

/// What clamping does to a sample scaled by `volume`: the result is always a 16-bit value; it
/// is the product divided by 256 and rounded down while that fits, and the nearest bound of the
/// 16-bit range otherwise.
pub proof fn lemma_clamp_sample(sample: int, volume: int)
    ensures
        -32768 <= spec_clamp_sample(sample, volume) <= 32767,
        -32768 * 256 <= sample * volume < 32768 * 256 ==> spec_clamp_sample(sample, volume) * 256
            <= sample * volume < spec_clamp_sample(sample, volume) * 256 + 256,
        sample * volume >= 32768 * 256 ==> spec_clamp_sample(sample, volume) == 32767,
        sample * volume < -32768 * 256 ==> spec_clamp_sample(sample, volume) == -32768,
{
    let p = sample * volume;
    let q = p / 256;
    assert(q * 256 <= p < q * 256 + 256) by {
        vstd::arithmetic::div_mod::lemma_fundamental_div_mod(p, 256);
        vstd::arithmetic::div_mod::lemma_mod_bound(p, 256);
    }
}

/// The transfer appends, for one frame of sound, two paint buffer entries per sample between
/// `paintedtime` and `end`, unless the paint buffer holds fewer; nothing already captured is
/// changed, and each entry appended is the clamped, scaled pair of the paint buffer's entry at
/// the same position.
pub proof fn lemma_transfer_count(end: int, paintedtime: int, buffer_len: nat)
    requires
        0 <= end - paintedtime,
    ensures
        spec_transfer_count(end, paintedtime) == 2 * (end - paintedtime),
        (if spec_transfer_count(end, paintedtime) < buffer_len {
            spec_transfer_count(end, paintedtime)
        } else {
            buffer_len as int
        }) == (if 2 * (end - paintedtime) < buffer_len {
            2 * (end - paintedtime)
        } else {
            buffer_len as int
        }),
{
}

/// `s` with every `%` doubled, so that the console's `printf` prints it as it is.
pub open spec fn spec_escape_percent(s: Seq<char>) -> Seq<char>
    decreases s.len(),
{
    if s.len() == 0 {
        Seq::empty()
    } else {
        let rest = spec_escape_percent(s.drop_last());
        if s.last() == '%' {
            rest + seq!['%', '%']
        } else {
            rest.push(s.last())
        }
    }
}

/// `s` read back as the console prints it: each `%%` (counted from the end) becomes one `%`.
pub open spec fn spec_unescape_percent(s: Seq<char>) -> Seq<char>
    decreases s.len(),
{
    if s.len() == 0 {
        Seq::empty()
    } else if s.len() >= 2 && s.last() == '%' && s[s.len() - 2] == '%' {
        spec_unescape_percent(s.take(s.len() - 2)).push('%')
    } else {
        spec_unescape_percent(s.drop_last()).push(s.last())
    }
}

/// The number of `%` signs in `s`.
pub open spec fn percent_count(s: Seq<char>) -> nat
    decreases s.len(),
{
    if s.len() == 0 {
        0
    } else {
        percent_count(s.drop_last()) + if s.last() == '%' {
            1nat
        } else {
            0nat
        }
    }
}

/// Escaping loses nothing: reading the escaped message back, each `%%` as `%`, gives the
/// message itself, every character kept and in order. The escaped message has one more
/// character for each `%`, and every character of it that is not `%` is the message's.
pub proof fn lemma_escape_percent_round_trip(s: Seq<char>)
    ensures
        spec_unescape_percent(spec_escape_percent(s)) == s,
        spec_escape_percent(s).len() == s.len() + percent_count(s),
        forall|c: char| c != '%' ==> (spec_escape_percent(s).contains(c) <==> s.contains(c)),
    decreases s.len(),
{
    if s.len() > 0 {
        let rest = s.drop_last();
        lemma_escape_percent_round_trip(rest);
        let e = spec_escape_percent(s);
        let er = spec_escape_percent(rest);
        assert(s =~= rest.push(s.last()));
        assert(percent_count(s) == percent_count(rest) + (if s.last() == '%' {
            1int
        } else {
            0int
        }));
        if s.last() == '%' {
            assert(e == er + seq!['%', '%']);
            assert(e.take(e.len() - 2) =~= er);
            assert(e =~= er.push('%').push('%'));
            assert(spec_unescape_percent(e) == spec_unescape_percent(er).push('%'));
        } else {
            assert(e == er.push(s.last()));
            assert(e.drop_last() =~= er);
            assert(spec_unescape_percent(e) == spec_unescape_percent(er).push(s.last()));
        }
        assert(spec_unescape_percent(e) =~= s);
        assert forall|c: char| c != '%' implies (e.contains(c) <==> s.contains(c)) by {
            if e.contains(c) {
                let j = choose|j: int| 0 <= j < e.len() && e[j] == c;
                if j < er.len() {
                    assert(er[j] == c);
                    assert(er.contains(c));
                    assert(rest.contains(c));
                    let k = choose|k: int| 0 <= k < rest.len() && rest[k] == c;
                    assert(s[k] == c);
                } else {
                    if s.last() == '%' {
                        assert(e[j] == '%');
                    } else {
                        assert(e[j] == s.last());
                    }
                    assert(s[s.len() - 1] == c);
                }
            }
            if s.contains(c) {
                let j = choose|j: int| 0 <= j < s.len() && s[j] == c;
                if j < rest.len() {
                    assert(rest[j] == c);
                    assert(rest.contains(c));
                    assert(er.contains(c));
                    let k = choose|k: int| 0 <= k < er.len() && er[k] == c;
                    assert(e[k] == c);
                } else {
                    assert(e[e.len() - 1] == c);
                }
            }
        }
    } else {

    }
}

/// Doubles every `%` of a message for the game console, which prints through `printf`.
pub fn escape_percent(string: &str) -> (r: String)
    ensures
        r@ == spec_escape_percent(string@),
        spec_unescape_percent(r@) == string@,
        r@.len() == string@.len() + percent_count(string@),
{
    proof {
        lemma_escape_percent_round_trip(string@);
    }
    let len = string.unicode_len();
    let mut escaped = String::new();
    let mut i: usize = 0;
    while i < len
        invariant
            i <= len,
            len == string@.len(),
            escaped@ == spec_escape_percent(string@.take(i as int)),
        decreases len - i,
    {
        let piece = string.substring_char(i, i + 1);
        assert(string@.take(i + 1).drop_last() =~= string@.take(i as int));
        if string.get_char(i) == '%' {
            proof {
                reveal_strlit("%%");
            }
            escaped.append("%%");
            assert(escaped@ =~= spec_escape_percent(string@.take(i + 1)));
        } else {
            escaped.append(piece);
            assert(escaped@ =~= spec_escape_percent(string@.take(i + 1)));
        }
        i = i + 1;
    }
    assert(string@.take(len as int) =~= string@);
    escaped
}

/// A window rectangle, as the engine stores it.
#[derive(Debug, Clone, Copy, PartialEq, Eq, Structural)]
pub struct Rect {
    pub left: i32,
    pub right: i32,
    pub top: i32,
    pub bottom: i32,
}

impl Rect {
    /// The width and height of the rectangle.
    pub fn size(&self) -> (r: (i32, i32))
        requires
            i32::MIN <= self.right - self.left <= i32::MAX,
            i32::MIN <= self.bottom - self.top <= i32::MAX,
        ensures
            r == ((self.right - self.left) as i32, (self.bottom - self.top) as i32),
    {
        (self.right - self.left, self.bottom - self.top)
    }
}

/// The game resolution for the width and height the engine reports (of the window, or of
/// the video mode in fullscreen); negative values count as 0.
pub fn get_resolution(size: (i32, i32)) -> (r: (u32, u32))
    ensures
        r.0 == (if size.0 < 0 { 0 } else { size.0 as int }),
        r.1 == (if size.1 < 0 { 0 } else { size.1 as int }),
{
    (c_int_to_u32(size.0), c_int_to_u32(size.1))
}

/// The OpenCL kernel that converts RGB into the given YUV pixel format (BT.601, limited
/// range), if there is one.
pub fn ocl_color_conversion_func_name(target: PixelFormat) -> (r: Option<&'static str>)
    ensures
        target == PixelFormat::YUV420P ==> (r matches Some(name) && name@
            == "rgb_to_yuv420_601_limited"@),
        target == PixelFormat::YUV444P ==> (r matches Some(name) && name@
            == "rgb_to_yuv444_601_limited"@),
        target != PixelFormat::YUV420P && target != PixelFormat::YUV444P ==> r is None,
{
    match target {
        PixelFormat::YUV420P => Some("rgb_to_yuv420_601_limited"),
        PixelFormat::YUV444P => Some("rgb_to_yuv444_601_limited"),
        _ => None,
    }
}

/// What to do with the OpenCL buffers for the Y, U and V planes before a frame is converted.
#[derive(Debug, Clone, Copy, PartialEq, Eq, Structural)]
pub enum YuvBuffersAction {
    /// There are no buffers yet (or building them failed before): build them.
    Build,
    /// The buffers have other lengths: drop them, then build new ones.
    Rebuild,
    /// The buffers fit: use them.
    Reuse,
}

/// Decides what to do with the YUV buffers, given the lengths of the buffers there are (if
/// any) and the lengths the frame's planes need.
pub fn yuv_buffers_action(
    current: &MaybeUnavailable<(usize, usize, usize)>,
    requested: (usize, usize, usize),
) -> (r: YuvBuffersAction)
    ensures
        r == (match *current {
            MaybeUnavailable::Available(lengths) => if lengths == requested {
                YuvBuffersAction::Reuse
            } else {
                YuvBuffersAction::Rebuild
            },
            _ => YuvBuffersAction::Build,
        }),
{
    match current {
        MaybeUnavailable::Available(lengths) => {
            if lengths.0 != requested.0 || lengths.1 != requested.1 || lengths.2 != requested.2 {
                YuvBuffersAction::Rebuild
            } else {
                YuvBuffersAction::Reuse
            }
        },
        _ => YuvBuffersAction::Build,
    }
}

/// The value of an integer console variable as the hooks read it: its integer value, or 0 when
/// it does not hold an integer.
pub open spec fn spec_int_or_zero(s: Seq<char>) -> i32 {
    match spec_parse_i32(s) {
        Some(v) => v,
        None => 0,
    }
}

/// Reads an integer console variable, taking 0 when it does not hold an integer.
pub fn int_or_zero(s: &str) -> (r: i32)
    ensures
        r == spec_int_or_zero(s@),
{
    match parse_i32(s) {
        Some(v) => v,
        None => 0,
    }
}

/// Whether a disconnect stops the capture: only while capturing a demo playback, and only if
/// `cap_playdemostop` is set to a nonzero integer.
pub fn disconnect_stops_capture(capturing: bool, demoplayback: i32, playdemostop: &str) -> (r:
    bool)
    ensures
        r == (capturing && demoplayback != 0 && spec_int_or_zero(playdemostop@) != 0),
{
    capturing && demoplayback != 0 && int_or_zero(playdemostop) != 0
}

/// Whether the console may be toggled: always outside a key press, and during one only if
/// `cap_allow_tabbing_out_in_demos` is 0 (or not an integer).
pub fn console_toggle_allowed(inside_key_event: bool, allow_tabbing_out: &str) -> (r: bool)
    ensures
        r == (!inside_key_event || spec_int_or_zero(allow_tabbing_out@) == 0),
{
    !inside_key_event || int_or_zero(allow_tabbing_out) == 0
}

/// Whether the game thread must block on the capture thread's messages before it flips the
/// screen: while capturing, until the encoder's pixel format is known.
pub fn must_wait_for_pixel_format(capturing: bool, pixel_format_known: bool) -> (r: bool)
    ensures
        r == (capturing && !pixel_format_known),
{
    capturing && !pixel_format_known
}

} // verus!
