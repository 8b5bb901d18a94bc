use json_hook::handle::{parse_handle, HandleError};

#[test]
fn parses_decimal_handle() {
    assert_eq!(parse_handle(b"3").unwrap().into_raw(), 3);
    assert_eq!(parse_handle(b"0042").unwrap().into_raw(), 42);
    assert_eq!(parse_handle(b"2147483647").unwrap().into_raw(), 2147483647);
}

#[test]
fn rejects_invalid_handle() {
    for text in [&b""[..], b"-1", b"3a", b" 3", b"2147483648", b"99999999999999999999"] {
        assert_eq!(parse_handle(text).unwrap_err(), HandleError::InvalidHandle);
    }
}
