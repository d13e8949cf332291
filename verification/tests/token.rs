use audiolink::token::{derive_link_token, derive_token_from_text, parse_token_arg, token_to_hex};

fn hex(text: &str) -> String {
    token_to_hex(&derive_token_from_text(text))
}

#[test]
fn tokens_of_texts() {
    assert_eq!(hex(""), "cbf29ce48422232584222325cbf29ce4");
    assert_eq!(hex("a"), "af63dc4c8601ec8c789ddf398d3f5492");
    assert_eq!(hex("caf\u{e9}"), "48e8823acfa40d89b1b89769dcfcf8a0");
}

#[test]
fn link_tokens_are_the_same_at_both_ends() {
    let here = derive_link_token("studio-a", "studio-b", None);
    let there = derive_link_token("studio-b", "studio-a", None);
    assert_eq!(here, there);
    assert_eq!(token_to_hex(&here), "ffbeafd0bef9ce9c28475e59156b5502");
    assert_eq!(derive_link_token("studio-a", "studio-b", Some("")), here);
    let secret = derive_link_token("studio-b", "studio-a", Some("secret"));
    assert_eq!(token_to_hex(&secret), "b87d20d5c1158bc274a3c8098b013f0a");
    assert_ne!(secret, here);
}

#[test]
fn token_arguments() {
    let token = derive_token_from_text("x");
    assert_eq!(parse_token_arg(&token_to_hex(&token)), Ok(token));
    assert_eq!(
        parse_token_arg("00112233-4455-6677-8899-aabbccddeeff"),
        Ok([
            0x00, 0x11, 0x22, 0x33, 0x44, 0x55, 0x66, 0x77, 0x88, 0x99, 0xaa, 0xbb, 0xcc, 0xdd,
            0xee, 0xff
        ])
    );
    assert_eq!(
        parse_token_arg("AABBCCDDEEFF00112233445566778899").unwrap()[0],
        0xaa
    );
    assert_eq!(
        parse_token_arg("some words"),
        Ok(derive_token_from_text("some words"))
    );
    assert_eq!(
        parse_token_arg("0011223344556677-8899aabbccddeefg"),
        Ok(derive_token_from_text("0011223344556677-8899aabbccddeefg"))
    );
}
