use hl_capture::avcodec::{c_int_to_u32, u32_to_c_int, PixelFormat, Rational};
use hl_capture::capture::{
    copy_rows_flipped, parse_bitrate, parse_fps, CaptureThreadAction, CaptureThreadEvent,
    CaptureThreadState, FrameShape, VideoBuffer,
};

fn rational(numerator: i32, denominator: i32) -> Rational {
    Rational { numerator, denominator }
}

#[test]
fn rational_from_pair_keeps_order() {
    assert_eq!(Rational::from((1001, 30000)), rational(1001, 30000));
}

#[test]
fn c_int_conversions_clamp() {
    assert_eq!(c_int_to_u32(-5), 0);
    assert_eq!(c_int_to_u32(1920), 1920);
    assert_eq!(u32_to_c_int(1080), 1080);
    assert_eq!(u32_to_c_int(u32::MAX), i32::MAX);
    assert_eq!(u32_to_c_int(2147483648), i32::MAX);
}

#[test]
fn pixel_format_components() {
    assert_eq!(PixelFormat::RGB24.components(), Some(3));
    assert_eq!(PixelFormat::RGBA.components(), Some(4));
    assert_eq!(PixelFormat::YUV420P.components(), Some(3));
    assert_eq!(PixelFormat::Unspecified.components(), None);
    assert_eq!(PixelFormat::Other { id: 28, components: 4 }.components(), Some(4));
}

#[test]
fn parse_fps_integer_fps() {
    assert_eq!(parse_fps("60"), Some(rational(1, 60)));
    assert_eq!(parse_fps("+30"), Some(rational(1, 30)));
}

#[test]
fn parse_fps_fractional_fps() {
    assert_eq!(parse_fps("30000 1001"), Some(rational(1001, 30000)));
    assert_eq!(parse_fps("60 1"), Some(rational(1, 60)));
}

#[test]
fn parse_fps_rejects_non_positive_and_malformed() {
    assert_eq!(parse_fps("0"), None);
    assert_eq!(parse_fps("-60"), None);
    assert_eq!(parse_fps("60 0"), None);
    assert_eq!(parse_fps("0 1"), None);
    assert_eq!(parse_fps("60 -1"), None);
    assert_eq!(parse_fps(""), None);
    assert_eq!(parse_fps("abc"), None);
    assert_eq!(parse_fps("60 1 2"), None);
    assert_eq!(parse_fps(" 60"), None);
    assert_eq!(parse_fps("60  1"), None);
}

#[test]
fn capture_thread_drops_frames_until_encoder_started() {
    let mut state = CaptureThreadState::new();
    assert!(state.drop_frames());
    assert!(!state.has_encoder());
    assert_eq!(state.on_event(CaptureThreadEvent::VideoFrame), CaptureThreadAction::DropFrame);
    assert_eq!(state.on_event(CaptureThreadEvent::AudioFrame), CaptureThreadAction::DropFrame);
    assert_eq!(state.on_event(CaptureThreadEvent::CaptureStart), CaptureThreadAction::StartEncoder);
    state.encoder_start_result(true);
    assert!(!state.drop_frames());
    assert_eq!(state.on_event(CaptureThreadEvent::VideoFrame), CaptureThreadAction::EncodeVideo);
    assert_eq!(state.on_event(CaptureThreadEvent::AudioFrame), CaptureThreadAction::EncodeAudio);
    assert_eq!(state.on_event(CaptureThreadEvent::CaptureStop), CaptureThreadAction::StopEncoder);
    assert!(state.drop_frames());
    assert!(!state.has_encoder());
    assert_eq!(state.on_event(CaptureThreadEvent::VideoFrame), CaptureThreadAction::DropFrame);
}

#[test]
fn capture_thread_failed_start_keeps_dropping() {
    let mut state = CaptureThreadState::new();
    assert_eq!(state.on_event(CaptureThreadEvent::CaptureStart), CaptureThreadAction::StartEncoder);
    state.encoder_start_result(false);
    assert!(state.drop_frames());
    assert!(!state.has_encoder());
    assert_eq!(state.on_event(CaptureThreadEvent::AudioFrame), CaptureThreadAction::DropFrame);
}

#[test]
fn capture_thread_encoding_failure_stops_encoder() {
    let mut state = CaptureThreadState::new();
    state.on_event(CaptureThreadEvent::CaptureStart);
    state.encoder_start_result(true);
    assert_eq!(state.encoding_failed(), CaptureThreadAction::StopEncoder);
    assert!(state.drop_frames());
    assert!(!state.has_encoder());
    assert_eq!(state.on_event(CaptureThreadEvent::VideoFrame), CaptureThreadAction::DropFrame);
}

#[test]
fn video_buffer_starts_empty_rgb24() {
    let buffer = VideoBuffer::new();
    assert_eq!(buffer.shape(), FrameShape { width: 0, height: 0, format: PixelFormat::RGB24 });
    assert!(!buffer.data_is_in_frame());
}

#[test]
fn video_buffer_reports_changes() {
    let mut buffer = VideoBuffer::new();
    assert!(buffer.set_resolution(4, 2));
    assert!(!buffer.set_resolution(4, 2));
    assert!(buffer.set_format(PixelFormat::RGBA));
    assert!(!buffer.set_format(PixelFormat::RGBA));
    assert_eq!(buffer.shape(), FrameShape { width: 4, height: 2, format: PixelFormat::RGBA });
}

#[test]
fn video_buffer_slice_matches_resolution_and_format() {
    let mut buffer = VideoBuffer::new();
    buffer.set_resolution(4, 2);
    assert_eq!(buffer.as_mut_slice().len(), 24);
    buffer.as_mut_slice()[0] = 9;
    buffer.set_format(PixelFormat::RGBA);
    let slice = buffer.as_mut_slice();
    assert_eq!(slice.len(), 32);
    assert_eq!(slice[0], 9);
    assert_eq!(slice[31], 0);
    buffer.set_resolution(1, 1);
    assert_eq!(buffer.as_mut_slice(), &[9, 0, 0, 0]);
}

#[test]
fn video_buffer_frame_bookkeeping() {
    let mut buffer = VideoBuffer::new();
    buffer.set_resolution(2, 2);
    let shape = buffer.shape();
    assert!(buffer.get_frame(FrameShape { width: 0, height: 0, format: PixelFormat::RGB24 }));
    assert!(buffer.data_is_in_frame());
    assert!(!buffer.get_frame(shape));
    assert!(!buffer.frame_needs_remake(shape));
    assert!(buffer.frame_needs_remake(FrameShape { format: PixelFormat::YUV420P, ..shape }));
    buffer.as_mut_slice();
    assert!(!buffer.data_is_in_frame());
    assert_eq!(buffer.components_per_plane(1), 3);
    assert_eq!(buffer.components_per_plane(3), 1);
}

#[test]
fn video_buffer_copies_plane_upside_down() {
    let mut buffer = VideoBuffer::new();
    buffer.set_resolution(2, 3);
    {
        let data = buffer.as_mut_slice();
        for (i, byte) in data.iter_mut().enumerate() {
            *byte = i as u8;
        }
    }
    // Rows of 6 bytes (2 pixels of 3 components) in a plane with a stride of 8.
    let mut plane = vec![0xffu8; 22];
    let next = buffer.copy_plane_to_frame(0, &mut plane, 8, 2, 3, 3);
    assert_eq!(next, 18);
    assert_eq!(&plane[16..22], &[0, 1, 2, 3, 4, 5]);
    assert_eq!(&plane[8..14], &[6, 7, 8, 9, 10, 11]);
    assert_eq!(&plane[0..6], &[12, 13, 14, 15, 16, 17]);
    assert_eq!(&plane[6..8], &[0xff, 0xff]);
    assert_eq!(&plane[14..16], &[0xff, 0xff]);
}

#[test]
fn copy_rows_flipped_from_offset() {
    let src = [9u8, 9, 1, 2, 3, 4];
    let mut dst = [0u8; 5];
    let next = copy_rows_flipped(&src, 2, &mut dst, 3, 2, 2);
    assert_eq!(next, 6);
    assert_eq!(dst, [3, 4, 0, 1, 2]);
}

#[test]
fn copy_rows_flipped_overlapping_rows_are_written_in_order() {
    let src = [1u8, 2, 3, 4, 5, 6];
    let mut dst = [0u8; 5];
    assert_eq!(copy_rows_flipped(&src, 0, &mut dst, 2, 3, 2), 6);
    assert_eq!(dst, [4, 5, 6, 2, 3]);
}

#[test]
fn copy_rows_flipped_no_rows() {
    let src = [1u8];
    let mut dst: [u8; 0] = [];
    assert_eq!(copy_rows_flipped(&src, 1, &mut dst, 4, 4, 0), 1);
}

#[test]
fn bitrate_is_read_in_kilobits() {
    assert_eq!(parse_bitrate("256"), Some(256000));
    assert_eq!(parse_bitrate("0"), Some(0));
    assert_eq!(parse_bitrate("+8"), Some(8000));
    assert_eq!(parse_bitrate("-1"), None);
    assert_eq!(parse_bitrate(""), None);
    assert_eq!(parse_bitrate("12k"), None);
}

#[test]
fn video_buffer_components_follow_format() {
    let mut buffer = VideoBuffer::new();
    assert_eq!(buffer.components(), 3);
    buffer.set_format(PixelFormat::RGBA);
    assert_eq!(buffer.components(), 4);
    buffer.set_format(PixelFormat::Other { id: 99, components: 2 });
    assert_eq!(buffer.components(), 2);
}
