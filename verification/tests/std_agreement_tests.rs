use grpc_web_rust::text::trim_bytes;
use grpc_web_rust::{percent_decode, Error};

#[test]
fn trimming_matches_str_trim_for_every_white_space_char() {
    for code in 0u32..=0x10FFFF {
        if let Some(c) = char::from_u32(code) {
            let s = format!("{c}{c}a{c}b{c}");
            assert_eq!(trim_bytes(s.as_bytes()), s.trim().as_bytes(), "char {:x}", code);
        }
    }
}

#[test]
fn trimming_matches_str_trim_on_samples() {
    for s in ["", " ", "  x  ", "\t\r\n", "x\u{200b}", "\u{2028}y\u{2029}", "\u{feff}z", "\u{a0}\u{85}"] {
        assert_eq!(trim_bytes(s.as_bytes()), s.trim().as_bytes(), "{:?}", s);
    }
}

#[test]
fn escapes_match_from_str_radix() {
    for h0 in 0u8..128 {
        for h1 in 0u8..128 {
            let pair = [h0, h1];
            let text = std::str::from_utf8(&pair).unwrap();
            let theirs = u8::from_str_radix(text, 16).ok();
            let ours = percent_decode(&[b'%', h0, h1]);
            match theirs {
                None => assert!(
                    matches!(ours, Err(Error::Decoding(ref m)) if m == "Invalid percent encoding"),
                    "pair {:?}",
                    text
                ),
                Some(v) => {
                    let expected = String::from_utf8(vec![v]);
                    match (ours, expected) {
                        (Ok(a), Ok(b)) => assert_eq!(a, b),
                        (Err(Error::Decoding(a)), Err(b)) => assert_eq!(a, b.to_string()),
                        (a, b) => panic!("pair {:?}: {:?} vs {:?}", text, a, b),
                    }
                }
            }
        }
    }
}

#[test]
fn plain_text_passes_unchanged() {
    assert_eq!(percent_decode(b"plain text").unwrap(), "plain text");
    assert_eq!(percent_decode("caf\u{e9}".as_bytes()).unwrap(), "caf\u{e9}");
}
