use sgidisklib::codec::fetch;
use sgidisklib::error::{BoundsError, CodecError, IoError, SgidiskLibReadError, ValueError};
use sgidisklib::text::{bytes_to_hex, decimal, decimal_wide, signed_decimal, signed_decimal_wide};

#[test]
fn it_works() {
    let result = 2 + 2;
    assert_eq!(result, 4);
}

#[test]
fn fetch_hands_out_the_bytes_asked_for() {
    let image: Vec<u8> = vec![10, 11, 12, 13, 14];
    assert_eq!(fetch(&image, 1, 3), Ok(&image[1..4]));
    assert_eq!(fetch(&image, 5, 0), Ok(&image[5..5]));
    assert_eq!(fetch(&image, 0, 5), Ok(&image[..]));
}

#[test]
fn fetch_fails_behind_the_end() {
    let image: Vec<u8> = vec![10, 11, 12, 13, 14];
    let eof = Err(SgidiskLibReadError::Io(IoError::UnexpectedEof));
    assert_eq!(fetch(&image, 3, 3), eof);
    assert_eq!(fetch(&image, 6, 0), eof);
    assert_eq!(fetch(&image, u64::MAX, 1), eof);
    assert_eq!(fetch(&image, 0, usize::MAX), eof);
}

#[test]
fn decimal_writes_numbers() {
    assert_eq!(decimal(0), "0");
    assert_eq!(decimal(7), "7");
    assert_eq!(decimal(10), "10");
    assert_eq!(decimal(409600), "409600");
    assert_eq!(decimal(u64::MAX), "18446744073709551615");
}

#[test]
fn signed_decimal_writes_the_sign() {
    assert_eq!(signed_decimal(0), "0");
    assert_eq!(signed_decimal(-1), "-1");
    assert_eq!(signed_decimal(i64::MIN), "-9223372036854775808");
    assert_eq!(signed_decimal(i64::MAX), "9223372036854775807");
}

#[test]
fn bytes_to_hex_writes_upper_case_pairs() {
    assert_eq!(bytes_to_hex(&[]), "");
    assert_eq!(bytes_to_hex(&[0x00, 0x0f, 0xa5, 0xff]), "000FA5FF");
}

#[test]
fn errors_say_what_kind_they_are() {
    assert_eq!(SgidiskLibReadError::Codec(CodecError::BadMagic).message(), "Couldn't unpack binary data");
    assert_eq!(SgidiskLibReadError::Io(IoError::UnexpectedEof).message(), "I/O error");
    assert_eq!(SgidiskLibReadError::Value(ValueError::NameNotUtf8).message(), "Value error");
    assert_eq!(
        SgidiskLibReadError::Bounds(BoundsError::BeforeStart { start: 0 }).message(),
        "File system points to something out of listed bounds"
    );
}

#[test]
fn wide_numbers_are_written_in_full() {
    assert_eq!(decimal_wide(0), "0");
    assert_eq!(decimal_wide(u128::MAX), "340282366920938463463374607431768211455");
    assert_eq!(signed_decimal_wide(0), "0");
    assert_eq!(signed_decimal_wide(-10), "-10");
    assert_eq!(signed_decimal_wide(i128::MAX), "170141183460469231731687303715884105727");
    assert_eq!(signed_decimal_wide(i128::MIN), "-170141183460469231731687303715884105728");
}
