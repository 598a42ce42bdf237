use hpcrypt_mldsa::kat::{parse_hex, parse_kat_file, try_parse_hex, try_parse_kat_file, KatVector};

#[test]
fn test_parse_hex() {
    let result = parse_hex("deadbeef");
    assert!(result.is_ok());
    let bytes = result.unwrap();
    assert_eq!(bytes, vec![0xde, 0xad, 0xbe, 0xef]);
}

#[test]
fn test_parse_hex_empty() {
    let result = parse_hex("");
    assert!(result.is_ok());
    assert_eq!(result.unwrap(), Vec::<u8>::new());
}

#[test]
fn test_parse_hex_odd_length() {
    let result = parse_hex("abc");
    assert!(result.is_err());
}

#[test]
fn test_parse_kat_sample() {
    let sample = r#"
count = 0
xi = f696484048ec21f96cf50a56d0759c448f3779752f0383d37449690694cf7a68
msg = 6dbbc4375136df3b07f7c70e639e223e
mlen = 16
ctx = 480c658c0cb3e040bde084345cef0df7

count = 1
xi = 6de62e3465a55c9c78a07d265be8540b3e58b0801a124d07ff12b438d5202ea0
msg = abcd
mlen = 2
ctx = 480c658c0cb3e040bde084345cef0df7
"#;

    let result = parse_kat_file(sample);
    assert!(result.is_ok());
    let vectors = result.unwrap();
    assert_eq!(vectors.len(), 2);

    assert_eq!(vectors[0].count, 0);
    assert_eq!(vectors[0].mlen, 16);
    assert_eq!(vectors[0].msg.len(), 16);

    assert_eq!(vectors[1].count, 1);
    assert_eq!(vectors[1].mlen, 2);
    assert_eq!(vectors[1].msg, vec![0xab, 0xcd]);
}

#[test]
fn parse_hex_edge_cases() {
    assert_eq!(parse_hex("  0aFF \n").unwrap(), vec![0x0a, 0xff]);
    // Only hexadecimal digits are accepted: no sign.
    assert_eq!(parse_hex("+a"), Err("Invalid hex character"));
    assert_eq!(parse_hex("+f"), Err("Invalid hex character"));
    assert_eq!(parse_hex("zz"), Err("Invalid hex character"));
    assert_eq!(parse_hex("abc"), Err("Hex string has odd length"));
    assert_eq!(parse_hex("-1"), Err("Invalid hex character"));
    // A two-byte character forms one pair, which is not a number.
    assert_eq!(parse_hex("é"), Err("Invalid hex character"));
    assert_eq!(parse_hex("   "), Ok(vec![]));
}

#[test]
fn parse_kat_errors_and_fields() {
    assert_eq!(parse_kat_file("count = x").unwrap_err(), "Invalid count");
    assert_eq!(parse_kat_file("count = 1\nmlen = -3").unwrap_err(), "Invalid mlen");
    assert_eq!(parse_kat_file("count = 1\nsmlen = ").unwrap_err(), "Invalid smlen");
    assert_eq!(parse_kat_file("count = 1\npk = 0g").unwrap_err(), "Invalid hex character");
    let v = parse_kat_file("# header\r\nxi = 01\r\ncount = +7\r\nsm = 0a0b0c\r\nsmlen = 3\r\nmlen = 1\r\nfoo = bar\r\n").unwrap();
    assert_eq!(v.len(), 1);
    assert_eq!(v[0].count, 7);
    // The xi line before the first count belongs to no vector.
    assert!(v[0].xi.is_empty());
    assert_eq!(v[0].signature(), vec![0x0a, 0x0b]);
    assert_eq!(v[0].message_from_sm(), vec![0x0c]);
    assert_eq!(parse_kat_file("").unwrap().len(), 0);
}

#[test]
fn kat_vector_new_and_default_are_empty() {
    let a = KatVector::new();
    let b = KatVector::default();
    assert_eq!(a.count, 0);
    assert!(a.xi.is_empty() && a.sm.is_empty() && a.ctx.is_empty());
    assert_eq!(b.mlen, 0);
    assert_eq!(b.smlen, 0);
    let c = a.clone();
    assert_eq!(c.count, 0);
}

#[test]
fn try_parse_reports_pairs_that_cut_a_character() {
    assert_eq!(try_parse_hex("a\u{20ac}"), None);
    assert_eq!(try_parse_hex("0aff"), Some(Ok(vec![0x0a, 0xff])));
    assert_eq!(try_parse_hex("+f"), Some(Err("Invalid hex character")));
    assert!(try_parse_kat_file("count = 1\npk = a\u{20ac}").is_none());
    let v = try_parse_kat_file("count = 2\nmsg = 0102").unwrap().unwrap();
    assert_eq!(v[0].count, 2);
    assert_eq!(v[0].msg, vec![1, 2]);
}
