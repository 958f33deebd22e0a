use ld2410s::commands::{build_cmd, switch_output_frame};
use ld2410s::types::OutputMode;

#[test]
fn switch_to_standard_frame_exact_bytes() {
    let frame = switch_output_frame(OutputMode::Standard);
    assert_eq!(
        frame,
        vec![
            0xFD, 0xFC, 0xFB, 0xFA, // header
            0x08, 0x00, // length = 2 (code) + 6 (params), little-endian
            0x7A, 0x00, // command code, little-endian
            0x00, 0x00, 0x00, 0x01, 0x00, 0x00, // standard-mode payload
            0x04, 0x03, 0x02, 0x01, // trailer
        ]
    );
}

#[test]
fn switch_to_minimal_frame_exact_bytes() {
    let frame = switch_output_frame(OutputMode::Minimal);
    assert_eq!(
        frame,
        vec![
            0xFD, 0xFC, 0xFB, 0xFA, 0x08, 0x00, 0x7A, 0x00, 0x00, 0x00, 0x00, 0x00, 0x00, 0x00,
            0x04, 0x03, 0x02, 0x01,
        ]
    );
}

#[test]
fn switch_frame_round_trips_code_and_length() {
    // Decode the header, length and code fields back out of the encoded
    // switch-to-standard command.
    let frame = switch_output_frame(OutputMode::Standard);
    assert_eq!(&frame[0..4], &[0xFD, 0xFC, 0xFB, 0xFA]);
    let length = frame[4] as u16 | ((frame[5] as u16) << 8);
    assert_eq!(length, 8);
    let code = frame[6] as u16 | ((frame[7] as u16) << 8);
    assert_eq!(code, 0x007A);
}

#[test]
fn build_cmd_with_no_params() {
    let frame = build_cmd(0x00FF, &[]);
    assert_eq!(
        frame,
        vec![0xFD, 0xFC, 0xFB, 0xFA, 0x02, 0x00, 0xFF, 0x00, 0x04, 0x03, 0x02, 0x01]
    );
}

#[test]
fn build_cmd_encodes_code_little_endian() {
    let frame = build_cmd(0xBEEF, &[0x11]);
    assert_eq!(frame[4], 0x03);
    assert_eq!(frame[5], 0x00);
    assert_eq!(frame[6], 0xEF);
    assert_eq!(frame[7], 0xBE);
    assert_eq!(frame[8], 0x11);
}

#[test]
fn output_mode_payloads() {
    assert_eq!(OutputMode::Minimal.as_six_bytes(), [0, 0, 0, 0, 0, 0]);
    assert_eq!(OutputMode::Standard.as_six_bytes(), [0, 0, 0, 1, 0, 0]);
}
