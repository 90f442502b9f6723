use hl_capture::avcodec::PixelFormat;
use hl_capture::encode::{
    audio_frame_size, converter_needs_rebuild, first_word, parse_key_value, parse_settings,
    select_audio_sample_format, select_sample_rate, select_video_pixel_format, split_whitespace,
    uses_bt470bg_color, video_encoder_options, AudioInput, EncoderError, HL_SAMPLE_RATE,
};

fn pairs(list: &[(&str, &str)]) -> Vec<(String, String)> {
    list.iter().map(|&(k, v)| (k.to_string(), v.to_string())).collect()
}

#[test]
fn pixel_format_default_is_first_supported() {
    let formats = [PixelFormat::YUV444P, PixelFormat::YUV420P];
    assert_eq!(select_video_pixel_format(Some(&formats), PixelFormat::Unspecified),
               Ok(PixelFormat::YUV444P));
}

#[test]
fn pixel_format_requested_must_be_supported() {
    let formats = [PixelFormat::YUV444P, PixelFormat::YUV420P];
    assert_eq!(select_video_pixel_format(Some(&formats), PixelFormat::YUV420P),
               Ok(PixelFormat::YUV420P));
    assert_eq!(select_video_pixel_format(Some(&formats), PixelFormat::RGB24),
               Err(EncoderError::UnsupportedPixelFormat));
}

#[test]
fn pixel_format_without_list() {
    assert_eq!(select_video_pixel_format(None, PixelFormat::Unspecified), Ok(PixelFormat::YUV420P));
    assert_eq!(select_video_pixel_format(None, PixelFormat::RGBA), Ok(PixelFormat::RGBA));
}

#[test]
fn color_space_written_for_yuv_formats() {
    assert!(uses_bt470bg_color(PixelFormat::YUV420P));
    assert!(uses_bt470bg_color(PixelFormat::YUV444P));
    assert!(!uses_bt470bg_color(PixelFormat::RGB24));
    assert!(!uses_bt470bg_color(PixelFormat::Other { id: 4, components: 3 }));
}

#[test]
fn sample_rate_closest_to_half_life() {
    assert_eq!(select_sample_rate(None), HL_SAMPLE_RATE);
    assert_eq!(select_sample_rate(Some(&[44100, 22050, 48000])), 22050);
    assert_eq!(select_sample_rate(Some(&[96000, 48000, 44100])), 44100);
    assert_eq!(select_sample_rate(Some(&[16000, 24000])), 24000);
    // 8050 and 36050 are equally far from 22050: the first one wins.
    assert_eq!(select_sample_rate(Some(&[8050, 36050])), 8050);
    assert_eq!(select_sample_rate(Some(&[36050, 8050])), 36050);
}

#[test]
fn audio_frame_size_defaults_to_1024() {
    assert_eq!(audio_frame_size(0), 1024);
    assert_eq!(audio_frame_size(960), 960);
}

#[test]
fn audio_input_fills_frames_in_order() {
    let mut input = AudioInput::new(3);
    assert_eq!(input.capacity(), 3);
    assert_eq!(input.frame(), &[(0, 0); 3]);
    let samples = [(1, -1), (2, -2), (3, -3), (4, -4), (5, -5)];
    let next = input.fill(&samples, 0);
    assert_eq!(next, 3);
    assert!(input.is_full());
    assert_eq!(input.frame(), &[(1, -1), (2, -2), (3, -3)]);
    input.frame_done();
    assert_eq!(input.position(), 0);
    let next = input.fill(&samples, next);
    assert_eq!(next, 5);
    assert!(!input.is_full());
    assert_eq!(input.position(), 2);
    assert_eq!(input.frame(), &[(4, -4), (5, -5), (3, -3)]);
}

#[test]
fn audio_input_fill_stops_at_end_of_samples() {
    let mut input = AudioInput::new(4);
    assert_eq!(input.fill(&[(7, 7)], 0), 1);
    assert_eq!(input.fill(&[(7, 7)], 1), 1);
    assert_eq!(input.position(), 1);
}

#[test]
fn audio_input_frame_count_matches_division() {
    // 2 samples already waiting, 10 more arrive, frames of 4: 3 frames, 0 left.
    let mut input = AudioInput::new(4);
    input.fill(&[(1, 1), (1, 1)], 0);
    let samples = vec![(2, 2); 10];
    let frames = input.take_audio(&samples);
    assert_eq!(frames.len(), 3);
    assert_eq!(input.position(), 0);
}

#[test]
fn audio_input_take_audio_conserves_sound() {
    let mut input = AudioInput::new(3);
    input.fill(&[(9, 9)], 0);
    let samples = [(1, -1), (2, -2), (3, -3), (4, -4), (5, -5), (6, -6)];
    let frames = input.take_audio(&samples);
    assert_eq!(frames,
               vec![vec![(9, 9), (1, -1), (2, -2)], vec![(3, -3), (4, -4), (5, -5)]]);
    assert_eq!(input.position(), 1);
    assert_eq!(input.frame(), &[(6, -6), (4, -4), (5, -5)]);
}

#[test]
fn audio_input_take_audio_sends_a_full_frame_first() {
    let mut input = AudioInput::new(2);
    input.fill(&[(1, 1), (2, 2)], 0);
    assert!(input.is_full());
    assert!(input.take_audio(&[]).is_empty());
    assert!(input.is_full());
    let frames = input.take_audio(&[(3, 3)]);
    assert_eq!(frames, vec![vec![(1, 1), (2, 2)]]);
    assert_eq!(input.position(), 1);
}

#[test]
fn audio_input_take_audio_short_input_stays_in_frame() {
    let mut input = AudioInput::new(8);
    let frames = input.take_audio(&[(1, 2), (3, 4)]);
    assert!(frames.is_empty());
    assert_eq!(input.position(), 2);
    assert_eq!(&input.frame()[..2], &[(1, 2), (3, 4)]);
}

#[test]
fn audio_input_pad_with_silence_overwrites_start() {
    let mut input = AudioInput::new(4);
    input.fill(&[(1, 1), (2, 2), (3, 3), (4, 4)], 0);
    input.frame_done();
    input.fill(&[(5, 5)], 0);
    input.pad_with_silence();
    assert_eq!(input.position(), 1);
    assert_eq!(input.frame(), &[(0, 0), (0, 0), (0, 0), (4, 4)]);
}

#[test]
fn split_whitespace_matches_std() {
    for s in ["", "  ", "a", " a  b\tc\n", "movflags=+faststart", "x\u{3000}y\u{a0}z", "é ü"] {
        let expected: Vec<String> = s.split_whitespace().map(String::from).collect();
        assert_eq!(split_whitespace(s), expected, "input {:?}", s);
    }
}

#[test]
fn key_value_split_at_first_equals() {
    assert_eq!(parse_key_value("a=b=c"), Some(("a".to_string(), "b=c".to_string())));
    assert_eq!(parse_key_value("=v"), Some(("".to_string(), "v".to_string())));
    assert_eq!(parse_key_value("k="), Some(("k".to_string(), "".to_string())));
    assert_eq!(parse_key_value("plain"), None);
}

#[test]
fn settings_keep_key_value_words() {
    assert_eq!(parse_settings("movflags=+faststart"), pairs(&[("movflags", "+faststart")]));
    assert_eq!(parse_settings(" tune=film  bogus profile=high "),
               pairs(&[("tune", "film"), ("profile", "high")]));
    assert_eq!(parse_settings(""), pairs(&[]));
}

#[test]
fn first_word_of_parameter() {
    assert_eq!(first_word("  15  16"), Some("15".to_string()));
    assert_eq!(first_word("   "), None);
}

#[test]
fn video_options_append_first_words() {
    assert_eq!(video_encoder_options("tune=film", "15", "veryfast x", "8"),
               pairs(&[("tune", "film"), ("crf", "15"), ("preset", "veryfast"), ("threads", "8")]));
    assert_eq!(video_encoder_options("", "", " ", "4"), pairs(&[("threads", "4")]));
}

#[test]
fn converter_is_rebuilt_for_new_input_formats() {
    assert!(converter_needs_rebuild(None, PixelFormat::RGB24));
    assert!(converter_needs_rebuild(Some(PixelFormat::RGBA), PixelFormat::RGB24));
    assert!(!converter_needs_rebuild(Some(PixelFormat::RGB24), PixelFormat::RGB24));
}

#[test]
fn audio_sample_format_is_first_supported_or_fallback() {
    assert_eq!(select_audio_sample_format(Some(&[7u8, 3]), 1), 7);
    assert_eq!(select_audio_sample_format(None, 1u8), 1);
}
