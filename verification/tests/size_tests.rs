use filegen::size::parse_size;
use filegen::Error;

#[test]
fn plain_bytes() {
    assert_eq!(parse_size("512"), Ok(512));
    assert_eq!(parse_size("0"), Ok(0));
    assert_eq!(parse_size("1"), Ok(1));
}

#[test]
fn kilobytes() {
    assert_eq!(parse_size("1K"), Ok(1024));
    assert_eq!(parse_size("1KB"), Ok(1024));
    assert_eq!(parse_size("1k"), Ok(1024));
    assert_eq!(parse_size("1kb"), Ok(1024));
    assert_eq!(parse_size("3K"), Ok(3 * 1024));
}

#[test]
fn megabytes() {
    assert_eq!(parse_size("2M"), Ok(2097152));
    assert_eq!(parse_size("2MB"), Ok(2097152));
    assert_eq!(parse_size("2m"), Ok(2097152));
}

#[test]
fn gigabytes() {
    assert_eq!(parse_size("3GB"), Ok(3 * 1024 * 1024 * 1024));
    assert_eq!(parse_size("3G"), Ok(3 * 1024 * 1024 * 1024));
}

#[test]
fn terabytes() {
    let tib: u128 = 1024u128 * 1024 * 1024 * 1024;
    assert_eq!(parse_size("5T"), Ok(5 * tib));
    assert_eq!(parse_size("5tb"), Ok(5 * tib));
}

#[test]
fn trailing_byte_marker_alone() {
    assert_eq!(parse_size("7B"), Ok(7));
    assert_eq!(parse_size("7b"), Ok(7));
}

#[test]
fn invalid_suffix() {
    assert_eq!(parse_size("5X"), Err(Error::InvalidSizeFormat));
    assert_eq!(parse_size("5KX"), Err(Error::InvalidSizeFormat));
    assert_eq!(parse_size("1BB"), Err(Error::InvalidSizeFormat));
    assert_eq!(parse_size("1BK"), Err(Error::InvalidSizeFormat));
}

#[test]
fn invalid_number() {
    assert_eq!(parse_size(""), Err(Error::InvalidSizeFormat));
    assert_eq!(parse_size("B"), Err(Error::InvalidSizeFormat));
    assert_eq!(parse_size("K"), Err(Error::InvalidSizeFormat));
    assert_eq!(parse_size("KB"), Err(Error::InvalidSizeFormat));
    assert_eq!(parse_size("12x3"), Err(Error::InvalidSizeFormat));
    assert_eq!(parse_size("-5"), Err(Error::InvalidSizeFormat));
    assert_eq!(parse_size("1.5K"), Err(Error::InvalidSizeFormat));
    assert_eq!(parse_size(" 12"), Err(Error::InvalidSizeFormat));
}

#[test]
fn overflow() {
    // 2^128, one past the largest representable byte count.
    assert_eq!(
        parse_size("340282366920938463463374607431768211456"),
        Err(Error::SizeOverflow)
    );
    // The digits alone fit, the multiplier pushes them over.
    assert_eq!(
        parse_size("340282366920938463463374607431768211455"),
        Ok(u128::MAX)
    );
    assert_eq!(
        parse_size("340282366920938463463374607431768211455K"),
        Err(Error::SizeOverflow)
    );
    // A malformed character is reported even when the digits overflow.
    assert_eq!(
        parse_size("340282366920938463463374607431768211456x9"),
        Err(Error::InvalidSizeFormat)
    );
}

#[test]
fn leading_zeros() {
    assert_eq!(parse_size("007"), Ok(7));
    assert_eq!(parse_size("000"), Ok(0));
    assert_eq!(parse_size("0K"), Ok(0));
}
