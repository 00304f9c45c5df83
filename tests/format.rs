use cliphist::{
    btoi, cut, extract_id, image_line, itob, preview, size_str, text_line, trunc, u64_to_be_bytes,
    Error,
};
use std::io::Cursor;

#[test]
fn human_sizes() {
    assert_eq!(size_str(900), "900 B");
    assert_eq!(size_str(2048), "2 KiB");
    assert_eq!(size_str(1_572_864), "2 MiB");
    assert_eq!(size_str(1536), "2 KiB");
    assert_eq!(size_str(0), "0 B");
    assert_eq!(size_str(1023), "1023 B");
    assert_eq!(size_str(2560), "2 KiB");
    assert_eq!(size_str(3584), "4 KiB");
    assert_eq!(size_str(5 * 1024 * 1024 * 1024), "5120 MiB");
}

#[test]
fn text_preview_collapses_whitespace() {
    assert_eq!(preview(5, b"hello   world", 100), "5\thello world");
    assert_eq!(preview(6, b"  \n a\t\tb \r\n", 100), "6\ta b");
    assert_eq!(preview(7, b"", 100), "7\t");
}

#[test]
fn text_preview_truncates() {
    assert_eq!(preview(1, b"abcdef", 3), "1\tabc\u{2026}");
    assert_eq!(preview(1, b"abc", 3), "1\tabc");
    assert_eq!(preview(2, "\u{e9}t\u{e9} ici".as_bytes(), 3), "2\t\u{e9}t\u{e9}\u{2026}");
}

#[test]
fn invalid_utf8_is_replaced() {
    assert_eq!(preview(1, b"a\xffb", 10), "1\ta\u{fffd}b");
}

#[test]
fn image_preview() {
    let img = image::RgbImage::new(2, 3);
    let mut buf = Cursor::new(Vec::new());
    img.write_to(&mut buf, image::ImageFormat::Png).unwrap();
    let bytes = buf.into_inner();
    let expected = format!("9\t[[ binary data {} B png 2x3 ]]", bytes.len());
    assert_eq!(preview(9, &bytes, 100), expected);
}

#[test]
fn truncate_helper() {
    assert_eq!(trunc("hello", 2, "..."), "he...");
    assert_eq!(trunc("hello", 5, "..."), "hello");
}

#[test]
fn cut_at_separator() {
    assert_eq!(cut("12\tabc\tdef", '\t'), ("12", "abc\tdef", true));
    assert_eq!(cut("12", '\t'), ("12", "", false));
    assert_eq!(cut("", '\t'), ("", "", false));
}

#[test]
fn ids_from_lines() {
    assert_eq!(extract_id("12\tfoo".to_string()), Ok(12));
    assert_eq!(extract_id("42".to_string()), Ok(42));
    assert_eq!(extract_id("+7\tx".to_string()), Ok(7));
    assert_eq!(extract_id("\tfoo".to_string()), Err(Error::MissingId));
    assert_eq!(extract_id("".to_string()), Err(Error::MissingId));
    assert_eq!(extract_id("ab\tfoo".to_string()), Err(Error::BadId));
    assert_eq!(extract_id("-1\tfoo".to_string()), Err(Error::BadId));
    assert_eq!(extract_id("+\tfoo".to_string()), Err(Error::BadId));
    assert_eq!(extract_id("18446744073709551615".to_string()), Ok(u64::MAX));
    assert_eq!(extract_id("18446744073709551616\tx".to_string()), Err(Error::BadId));
}

#[test]
fn keys_are_big_endian() {
    assert_eq!(itob(0x0102030405060708), [1, 2, 3, 4, 5, 6, 7, 8]);
    assert_eq!(u64_to_be_bytes(258), 258u64.to_be_bytes());
    assert_eq!(btoi(&[1, 2, 3, 4, 5, 6, 7, 8, 9]), 0x0102030405060708);
    assert_eq!(btoi(&itob(u64::MAX - 3)), u64::MAX - 3);
    assert!(itob(255) < itob(256));
}

#[test]
fn custom_error_message() {
    assert_eq!(Error::custom("boom"), Error::Custom("boom".to_string()));
}

#[test]
fn image_line_layout() {
    assert_eq!(image_line(3, 2048, "png", 640, 480), "3\t[[ binary data 2 KiB png 640x480 ]]");
}

#[test]
fn text_line_layout() {
    assert_eq!(text_line(12, "  a \u{3000} b\n", 10), "12\ta b");
    assert_eq!(text_line(0, "abcd", 0), "0\t\u{2026}");
}
