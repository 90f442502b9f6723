use hl_capture::avcodec::PixelFormat;
use hl_capture::fps_converter::sampling::{OclBufferIndex, OclData};
use hl_capture::hooks::hw::{
    clamp_sample, console_toggle_allowed, disconnect_stops_capture, escape_percent,
    get_resolution, int_or_zero, must_wait_for_pixel_format, ocl_color_conversion_func_name, transfer_stereo16,
    yuv_buffers_action, PortableSamplePair, Rect, YuvBuffersAction,
};
use hl_capture::utils::MaybeUnavailable;

#[test]
fn clamp_sample_scales_and_rounds_down() {
    assert_eq!(clamp_sample(1000, 102), 398);
    assert_eq!(clamp_sample(-1000, 102), -399);
    assert_eq!(clamp_sample(-1, 1), -1);
    assert_eq!(clamp_sample(255, 1), 0);
    assert_eq!(clamp_sample(256, 256), 256);
}

#[test]
fn clamp_sample_saturates() {
    assert_eq!(clamp_sample(40000, 256), 32767);
    assert_eq!(clamp_sample(-40000, 256), -32768);
    assert_eq!(clamp_sample(32768, 256), 32767);
    assert_eq!(clamp_sample(-32768, 256), -32768);
}

#[test]
fn transfer_stereo16_appends_scaled_pairs() {
    let paintbuffer = [PortableSamplePair { left: 512, right: -512 },
                       PortableSamplePair { left: 100000, right: 3 },
                       PortableSamplePair { left: 7, right: 7 }];
    let mut sound = vec![(1i16, 1i16)];
    transfer_stereo16(&paintbuffer, 11, 10, 256, &mut sound);
    assert_eq!(sound, vec![(1, 1), (512, -512), (32767, 3)]);
}

#[test]
fn transfer_stereo16_limited_by_buffer() {
    let paintbuffer = [PortableSamplePair { left: 256, right: 256 }];
    let mut sound = Vec::new();
    transfer_stereo16(&paintbuffer, 100, 0, 128, &mut sound);
    assert_eq!(sound, vec![(128, 128)]);
    transfer_stereo16(&paintbuffer, 5, 5, 128, &mut sound);
    assert_eq!(sound.len(), 1);
}

#[test]
fn escape_percent_doubles_percent_signs() {
    assert_eq!(escape_percent("100% done, 5%s"), "100%% done, 5%%s");
    assert_eq!(escape_percent(""), "");
    assert_eq!(escape_percent("%%"), "%%%%");
    assert_eq!(escape_percent("ü%ü"), "ü%%ü");
}

#[test]
fn rect_size_and_resolution() {
    let rect = Rect { left: 10, right: 650, top: 20, bottom: 500 };
    assert_eq!(rect.size(), (640, 480));
    assert_eq!(get_resolution(rect.size()), (640, 480));
    assert_eq!(get_resolution((-5, 768)), (0, 768));
}

#[test]
fn color_conversion_kernels() {
    assert_eq!(ocl_color_conversion_func_name(PixelFormat::YUV420P), Some("rgb_to_yuv420_601_limited"));
    assert_eq!(ocl_color_conversion_func_name(PixelFormat::YUV444P), Some("rgb_to_yuv444_601_limited"));
    assert_eq!(ocl_color_conversion_func_name(PixelFormat::RGBA), None);
}

#[test]
fn yuv_buffers_built_rebuilt_or_reused() {
    let requested = (100, 25, 25);
    assert_eq!(yuv_buffers_action(&MaybeUnavailable::NotChecked, requested), YuvBuffersAction::Build);
    assert_eq!(yuv_buffers_action(&MaybeUnavailable::Unavailable, requested), YuvBuffersAction::Build);
    assert_eq!(yuv_buffers_action(&MaybeUnavailable::Available((100, 25, 25)), requested),
               YuvBuffersAction::Reuse);
    assert_eq!(yuv_buffers_action(&MaybeUnavailable::Available((100, 25, 26)), requested),
               YuvBuffersAction::Rebuild);
}

#[test]
fn ocl_buffer_index_ping_pong() {
    let mut index = OclBufferIndex::new();
    assert_eq!(index.src_buffer(), 0);
    assert_eq!(index.dst_buffer(), 1);
    index.switch_buffer_index();
    assert_eq!(index.src_buffer(), 1);
    assert_eq!(index.dst_buffer(), 0);
    index.switch_buffer_index();
    assert_eq!(index.src_buffer(), 0);
}

#[test]
fn ocl_data_backup_and_restore() {
    let mut data = OclData::new(Some(5));
    assert!(!data.needs_restore());
    assert_eq!(data.get_ocl_data().map(|d| *d), Some(5));
    if let Some(d) = data.get_ocl_data() {
        *d = 6;
    }
    assert_eq!(data.take_for_backup(), Some(6));
    assert!(data.needs_restore());
    assert_eq!(data.take_for_backup(), None);
    data.restore(7);
    assert!(!data.needs_restore());
    assert_eq!(data.get_ocl_data().map(|d| *d), Some(7));
}

#[test]
fn ocl_data_unavailable_stays_unavailable() {
    let mut data = OclData::<u8>::new(None);
    assert_eq!(data.take_for_backup(), None);
    assert!(!data.needs_restore());
    assert!(data.get_ocl_data().is_none());
}

#[test]
fn int_or_zero_reads_integers_only() {
    assert_eq!(int_or_zero("1"), 1);
    assert_eq!(int_or_zero("-3"), -3);
    assert_eq!(int_or_zero(""), 0);
    assert_eq!(int_or_zero("yes"), 0);
    assert_eq!(int_or_zero("1.5"), 0);
}

#[test]
fn disconnect_stops_only_demo_capture() {
    assert!(disconnect_stops_capture(true, 1, "1"));
    assert!(!disconnect_stops_capture(false, 1, "1"));
    assert!(!disconnect_stops_capture(true, 0, "1"));
    assert!(!disconnect_stops_capture(true, 1, "0"));
    assert!(!disconnect_stops_capture(true, 1, "off"));
}

#[test]
fn console_toggle_during_key_event_follows_setting() {
    assert!(console_toggle_allowed(false, "1"));
    assert!(!console_toggle_allowed(true, "1"));
    assert!(console_toggle_allowed(true, "0"));
    assert!(console_toggle_allowed(true, "x"));
}

#[test]
fn flip_waits_for_pixel_format_only_while_capturing() {
    assert!(must_wait_for_pixel_format(true, false));
    assert!(!must_wait_for_pixel_format(true, true));
    assert!(!must_wait_for_pixel_format(false, false));
    assert!(!must_wait_for_pixel_format(false, true));
}
