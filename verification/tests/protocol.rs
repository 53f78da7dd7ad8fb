use agentplay::image::{decode_png, encode_png, frame_from_decoded};
use agentplay::model::Frame;
use agentplay::bridge::{
    check_handshake, check_press_response, parse_capture_response, response_text, BridgeError,
};
use agentplay::image::{frame_from_samples, to_rgba, BitDepth, ColorType, ImageError};
use agentplay::runner::{RunLimits, Runner};

#[test]
fn response_lines_lose_their_line_endings() {
    assert_eq!(response_text("OK 12\r\n"), "OK 12");
    assert_eq!(response_text("READY\n\n"), "READY");
    assert_eq!(response_text("\r\n"), "");
    assert_eq!(response_text("a\rb"), "a\rb");
}

#[test]
fn handshake_must_say_ready() {
    assert_eq!(check_handshake("READY"), Ok(()));
    assert_eq!(
        check_handshake("READY?"),
        Err(BridgeError::UnexpectedHandshake("READY?".into()))
    );
}

#[test]
fn capture_answers_are_parsed() {
    assert_eq!(parse_capture_response("OK 1234"), Ok(1234));
    assert_eq!(parse_capture_response("OK +7"), Ok(7));
    assert_eq!(
        parse_capture_response("ERR no permission"),
        Err(BridgeError::Remote("no permission".into()))
    );
    assert_eq!(
        parse_capture_response("OK -1"),
        Err(BridgeError::InvalidCaptureLength("-1".into()))
    );
    assert_eq!(
        parse_capture_response("OK "),
        Err(BridgeError::InvalidCaptureLength("".into()))
    );
    assert_eq!(
        parse_capture_response("OK 99999999999999999999999"),
        Err(BridgeError::InvalidCaptureLength(
            "99999999999999999999999".into()
        ))
    );
    assert_eq!(
        parse_capture_response("DONE"),
        Err(BridgeError::InvalidCaptureResponse("DONE".into()))
    );
}

#[test]
fn input_answers_are_checked() {
    assert_eq!(check_press_response("OK"), Ok(()));
    assert_eq!(
        check_press_response("ERR window gone"),
        Err(BridgeError::Remote("window gone".into()))
    );
    assert_eq!(
        check_press_response("OK 1"),
        Err(BridgeError::InvalidInputResponse("OK 1".into()))
    );
}

#[test]
fn pixels_expand_to_rgba() {
    assert_eq!(
        to_rgba(&[1, 2, 3, 4, 5, 6, 7], ColorType::Rgb),
        Ok(vec![1, 2, 3, 255, 4, 5, 6, 255])
    );
    assert_eq!(
        to_rgba(&[9, 8], ColorType::Grayscale),
        Ok(vec![9, 9, 9, 255, 8, 8, 8, 255])
    );
    assert_eq!(
        to_rgba(&[9, 100, 8], ColorType::GrayscaleAlpha),
        Ok(vec![9, 9, 9, 100])
    );
    assert_eq!(to_rgba(&[1, 2, 3, 4, 5], ColorType::Rgba), Ok(vec![1, 2, 3, 4, 5]));
    assert_eq!(to_rgba(&[0], ColorType::Indexed), Err(ColorType::Indexed));
}

#[test]
fn step_limit_is_respected() {
    let limits = RunLimits { max_steps: Some(2) };
    assert!(limits.allows_step(0));
    assert!(limits.allows_step(1));
    assert!(!limits.allows_step(2));
    assert!(RunLimits::default().allows_step(u64::MAX));
    let (environment, agent, kept) = Runner::new(1_u8, "agent", limits.clone()).into_parts();
    assert_eq!((environment, agent, kept), (1, "agent", limits));
}

#[test]
fn frames_need_eight_bit_samples() {
    let frame = frame_from_samples(2, 1, ColorType::Rgb, BitDepth::Eight, &[1, 2, 3, 4, 5, 6]).unwrap();
    assert_eq!((frame.width, frame.height), (2, 1));
    assert_eq!(frame.rgba, vec![1, 2, 3, 255, 4, 5, 6, 255]);
    assert_eq!(
        frame_from_samples(1, 1, ColorType::Rgba, BitDepth::Sixteen, &[0; 8]).unwrap_err(),
        ImageError::UnsupportedBitDepth(BitDepth::Sixteen)
    );
    assert_eq!(
        frame_from_samples(1, 1, ColorType::Indexed, BitDepth::Eight, &[0]).unwrap_err(),
        ImageError::UnsupportedColorType(ColorType::Indexed)
    );
}

fn png_bytes(width: u32, height: u32, color: png::ColorType, depth: png::BitDepth, data: &[u8]) -> Vec<u8> {
    let mut out = Vec::new();
    {
        let mut encoder = png::Encoder::new(&mut out, width, height);
        encoder.set_color(color);
        encoder.set_depth(depth);
        let mut writer = encoder.write_header().unwrap();
        writer.write_image_data(data).unwrap();
        writer.finish().unwrap();
    }
    out
}

#[test]
fn png_screenshots_decode_to_rgba_frames() {
    let rgb = png_bytes(2, 1, png::ColorType::Rgb, png::BitDepth::Eight, &[1, 2, 3, 4, 5, 6]);
    let frame = decode_png(&rgb).unwrap();
    assert_eq!((frame.width, frame.height), (2, 1));
    assert_eq!(frame.rgba, vec![1, 2, 3, 255, 4, 5, 6, 255]);

    let gray16 = png_bytes(1, 1, png::ColorType::Grayscale, png::BitDepth::Sixteen, &[0xAB, 0xCD]);
    assert_eq!(decode_png(&gray16).unwrap().rgba, vec![0xAB, 0xAB, 0xAB, 255]);

    assert_eq!(decode_png(&[1, 2, 3]).unwrap_err(), ImageError::Undecodable);
}

#[test]
fn frames_encode_to_png_and_back() {
    let frame = Frame {
        width: 2,
        height: 2,
        rgba: (0..16).collect(),
    };
    let bytes = encode_png(&frame).unwrap();
    assert_ne!(bytes, frame.rgba);
    assert_eq!(decode_png(&bytes).unwrap(), frame);
    let short = Frame {
        width: 2,
        height: 2,
        rgba: vec![0; 3],
    };
    assert_eq!(encode_png(&short), Err(ImageError::Unencodable));
}

#[test]
fn decoder_codes_are_mapped() {
    assert_eq!(
        frame_from_decoded(1, 1, 0, 8, &[7]).unwrap().rgba,
        vec![7, 7, 7, 255]
    );
    assert_eq!(
        frame_from_decoded(1, 1, 4, 8, &[7, 9]).unwrap().rgba,
        vec![7, 7, 7, 9]
    );
    assert_eq!(
        frame_from_decoded(1, 1, 6, 16, &[0; 8]).unwrap_err(),
        ImageError::UnsupportedBitDepth(BitDepth::Sixteen)
    );
    assert_eq!(
        frame_from_decoded(1, 1, 6, 7, &[0; 4]).unwrap_err(),
        ImageError::UnknownBitDepth(7)
    );
    assert_eq!(
        frame_from_decoded(1, 1, 5, 8, &[0; 4]).unwrap_err(),
        ImageError::UnknownColorType(5)
    );
    assert_eq!(
        frame_from_decoded(1, 1, 3, 8, &[0]).unwrap_err(),
        ImageError::UnsupportedColorType(ColorType::Indexed)
    );
}

#[test]
fn oversized_or_empty_frames_are_not_encoded() {
    let huge = Frame {
        width: 1 << 31,
        height: 1 << 31,
        rgba: Vec::new(),
    };
    assert_eq!(encode_png(&huge), Err(ImageError::Unencodable));
    let empty = Frame {
        width: 0,
        height: 3,
        rgba: Vec::new(),
    };
    assert_eq!(encode_png(&empty), Err(ImageError::Unencodable));
}
