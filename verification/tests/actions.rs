use midi_does::actions::{encoder_delta, EncoderMode};

#[test]
fn test_encoder_delta_sign_magnitude() {
    assert_eq!(encoder_delta(0x41, EncoderMode::SignMagnitude), -1);
    assert_eq!(encoder_delta(0x01, EncoderMode::SignMagnitude), 1);
    assert_eq!(encoder_delta(0x00, EncoderMode::SignMagnitude), 0);
    assert_eq!(encoder_delta(0x7F, EncoderMode::SignMagnitude), -63);
    assert_eq!(encoder_delta(0x3F, EncoderMode::SignMagnitude), 63);
}

#[test]
fn test_encoder_delta_twos_complement() {
    assert_eq!(encoder_delta(0, EncoderMode::TwosComplement), 0);
    assert_eq!(encoder_delta(1, EncoderMode::TwosComplement), 1);
    assert_eq!(encoder_delta(63, EncoderMode::TwosComplement), 63);
    assert_eq!(encoder_delta(64, EncoderMode::TwosComplement), -64);
    assert_eq!(encoder_delta(127, EncoderMode::TwosComplement), -1);
    assert_eq!(encoder_delta(65, EncoderMode::TwosComplement), -63);
}

#[test]
fn test_encoder_delta_binary_offset() {
    assert_eq!(encoder_delta(64, EncoderMode::BinaryOffset), 0);
    assert_eq!(encoder_delta(65, EncoderMode::BinaryOffset), 1);
    assert_eq!(encoder_delta(127, EncoderMode::BinaryOffset), 63);
    assert_eq!(encoder_delta(63, EncoderMode::BinaryOffset), -1);
    assert_eq!(encoder_delta(0, EncoderMode::BinaryOffset), -64);
}

#[test]
fn encoder_delta_sign_bit_ignores_high_bit() {
    assert_eq!(encoder_delta(0xC1, EncoderMode::SignMagnitude), -1);
    assert_eq!(encoder_delta(0x81, EncoderMode::SignMagnitude), 1);
}
