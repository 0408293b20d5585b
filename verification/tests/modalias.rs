use fake_bluetooth::error::BluetoothError;
use fake_bluetooth::modalias::{number_of, parse_modalias};
use rustc_serialize::hex::FromHexError;

#[test]
fn modalias_decodes_three_numbers() {
    let parts = parse_modalias("bluetooth:v1234p5678d9ABC").unwrap();
    assert_eq!(parts, (String::from("bluetooth"), 0x1234, 0x5678, 0x9ABC));
}

#[test]
fn modalias_numbers_are_high_byte_times_256_plus_low_byte() {
    let parts = parse_modalias("usb:v0102p00FFdFF00").unwrap();
    assert_eq!(parts.1, 1 * 256 + 2);
    assert_eq!(parts.2, 255);
    assert_eq!(parts.3, 255 * 256);
}

#[test]
fn modalias_accepts_both_cases_of_hex_digits() {
    let parts = parse_modalias("usb:vabcdpABCDdaBcD").unwrap();
    assert_eq!(parts, (String::from("usb"), 0xABCD, 0xABCD, 0xABCD));
}

#[test]
fn modalias_extreme_numbers() {
    let parts = parse_modalias("x:v0000pFFFFd0001").unwrap();
    assert_eq!(parts, (String::from("x"), 0, 0xFFFF, 1));
}

#[test]
fn modalias_source_may_be_empty() {
    let parts = parse_modalias(":v1234p5678d9ABC").unwrap();
    assert_eq!(parts, (String::new(), 0x1234, 0x5678, 0x9ABC));
}

#[test]
fn modalias_source_may_hold_any_character() {
    let parts = parse_modalias("blåtand:v1234p5678d9ABC").unwrap();
    assert_eq!(parts.0, "blåtand");
    assert_eq!(parts.1, 0x1234);
}

#[test]
fn modalias_ignores_what_follows_the_ids() {
    let parts = parse_modalias("usb:v1D6Bp0246d0540dc09").unwrap();
    assert_eq!(parts, (String::from("usb"), 0x1D6B, 0x0246, 0x0540));
    let parts = parse_modalias("usb:v1D6Bp0246d0540:more:still").unwrap();
    assert_eq!(parts, (String::from("usb"), 0x1D6B, 0x0246, 0x0540));
}

#[test]
fn modalias_does_not_look_at_the_letters_between_the_numbers() {
    let parts = parse_modalias("usb:x1D6By0246z0540").unwrap();
    assert_eq!(parts, (String::from("usb"), 0x1D6B, 0x0246, 0x0540));
}

#[test]
fn modalias_without_colon_fails() {
    assert_eq!(parse_modalias("bluetoothv1234p5678d9ABC"), Err(BluetoothError::MalformedModalias));
}

#[test]
fn modalias_empty_fails() {
    assert_eq!(parse_modalias(""), Err(BluetoothError::MalformedModalias));
    assert_eq!(parse_modalias(":"), Err(BluetoothError::MalformedModalias));
}

#[test]
fn modalias_too_short_fails() {
    assert_eq!(parse_modalias("bluetooth:v1234p5678d9AB"), Err(BluetoothError::MalformedModalias));
    assert_eq!(parse_modalias("bluetooth:v1234"), Err(BluetoothError::MalformedModalias));
}

#[test]
fn modalias_cut_short_by_a_second_colon_fails() {
    assert_eq!(parse_modalias("bluetooth:v1234p5678:d9ABC"), Err(BluetoothError::MalformedModalias));
}

#[test]
fn modalias_with_a_character_that_is_no_hex_digit_fails() {
    assert_eq!(parse_modalias("bluetooth:v12G4p5678d9ABC"), Err(BluetoothError::MalformedModalias));
    assert_eq!(parse_modalias("bluetooth:v1234p56-8d9ABC"), Err(BluetoothError::MalformedModalias));
    assert_eq!(parse_modalias("bluetooth:v1234p5678d9ABé"), Err(BluetoothError::MalformedModalias));
}

#[test]
fn modalias_with_a_space_among_the_digits_fails() {
    assert_eq!(parse_modalias("bluetooth:v12 4p5678d9ABC"), Err(BluetoothError::MalformedModalias));
    assert_eq!(parse_modalias("bluetooth:v1 2 p5678d9ABC"), Err(BluetoothError::MalformedModalias));
    assert_eq!(parse_modalias("bluetooth:v    p5678d9ABC"), Err(BluetoothError::MalformedModalias));
    assert_eq!(parse_modalias("bluetooth:v1234p5678d9A\tC"), Err(BluetoothError::MalformedModalias));
}

#[test]
fn number_of_two_bytes() {
    assert_eq!(number_of(Ok(vec![0x12, 0x34])), Ok(0x1234));
    assert_eq!(number_of(Ok(vec![0, 0])), Ok(0));
    assert_eq!(number_of(Ok(vec![0xFF, 0xFF])), Ok(0xFFFF));
    assert_eq!(number_of(Ok(vec![1, 2, 3])), Ok(0x0102));
}

#[test]
fn number_of_fewer_than_two_bytes_fails() {
    assert_eq!(number_of(Ok(vec![0x12])), Err(BluetoothError::MalformedModalias));
    assert_eq!(number_of(Ok(vec![])), Err(BluetoothError::MalformedModalias));
}

#[test]
fn number_of_a_failed_decoding_fails() {
    assert_eq!(number_of(Err(FromHexError::InvalidHexLength)), Err(BluetoothError::MalformedModalias));
    assert_eq!(
        number_of(Err(FromHexError::InvalidHexCharacter('g', 0))),
        Err(BluetoothError::MalformedModalias)
    );
}
