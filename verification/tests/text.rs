use audiolink::text::{trim_text, white_space};

#[test]
fn white_space_matches_std() {
    let mut u: u32 = 0;
    while u <= 0x10ffff {
        if let Some(c) = char::from_u32(u) {
            assert_eq!(white_space(c), c.is_whitespace());
        }
        u += 1;
    }
    assert_eq!(trim_text(" a b\t"), "a b");
}
