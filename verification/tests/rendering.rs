//! The text-rendering transform on concrete byte strings.

use prooftrees::render;

/// A source packing "ab" (interior 'a', final-marked 'b') and "c" (one
/// final-marked byte) renders to a leading space, "ab", a space, "c".
#[test]
fn render_known_tokens() {
    let src = [0x61u8, 0x80 | 0x62, 0x80 | 0x63];
    assert_eq!(render(&src), b" ab c".to_vec());
}

/// An empty source renders to an empty output.
#[test]
fn render_empty() {
    let src: [u8; 0] = [];
    assert_eq!(render(&src), Vec::<u8>::new());
}

/// One final-marked byte is one token: leading space, the byte with its
/// marker cleared, no trailing space.
#[test]
fn render_single_token() {
    let src = [0x80u8 | 0x41];
    assert_eq!(render(&src), b" A".to_vec());
}

/// A source ending in an interior byte loses that byte to the final
/// removal, exactly as the transform prescribes.
#[test]
fn render_unterminated_token() {
    let src = [0x61u8];
    assert_eq!(render(&src), b" ".to_vec());
}

/// Two single-byte tokens: space-separated, no trailing space.
#[test]
fn render_two_tokens() {
    let src = [0x80u8 | 0x78, 0x80 | 0x79];
    assert_eq!(render(&src), b" x y".to_vec());
}
