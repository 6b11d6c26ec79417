use btwin::utils::{push_decimal, FromWide, ToWide, WideString};

fn wide_of(s: &str) -> Vec<u16> {
    let mut v: Vec<u16> = s.encode_utf16().collect();
    v.push(0);
    v
}

#[test]
fn to_wide_ascii_is_terminated() {
    assert_eq!("Robot".to_wide(), vec![82, 111, 98, 111, 116, 0]);
}

#[test]
fn to_wide_empty_is_just_nul() {
    assert_eq!("".to_wide(), vec![0]);
}

#[test]
fn to_wide_basic_plane_and_surrogate_pairs() {
    // U+00E9 is one unit; U+1D11E is the pair D834 DD1E.
    assert_eq!("\u{e9}\u{1d11e}".to_wide(), vec![0x00E9, 0xD834, 0xDD1E, 0]);
    assert_eq!("\u{10ffff}".to_wide(), vec![0xDBFF, 0xDFFF, 0]);
    assert_eq!("\u{ffff}".to_wide(), vec![0xFFFF, 0]);
}

#[test]
fn to_wide_matches_std_encoding() {
    let s = "Makeblock_LE001b1067c8af \u{263a}\u{1f600}";
    assert_eq!(s.to_wide(), wide_of(s));
}

#[test]
fn string_to_wide_same_as_str() {
    let s = String::from("Robot \u{1f916}");
    assert_eq!(s.to_wide(), s.as_str().to_wide());
}

#[test]
fn from_wide_stops_at_first_nul() {
    let w = WideString::from_wide(&[72, 105, 0, 33, 0]);
    assert_eq!(w.to_wide(), vec![72, 105, 0]);
    assert_eq!(w.into_string().ok(), Some(String::from("Hi")));
}

#[test]
fn from_wide_without_nul_takes_everything() {
    let w = WideString::from_wide(&[72, 105]);
    assert_eq!(w.into_string().ok(), Some(String::from("Hi")));
}

#[test]
fn from_wide_leading_nul_is_empty() {
    let w = WideString::from_wide(&[0, 72, 105]);
    assert_eq!(w.into_string().ok(), Some(String::new()));
}

#[test]
fn into_string_decodes_surrogate_pairs() {
    let w = WideString::from_wide(&[0xD834, 0xDD1E, 0x0041, 0]);
    assert_eq!(w.into_string().ok(), Some(String::from("\u{1d11e}A")));
}

#[test]
fn into_string_refuses_unpaired_high_surrogate() {
    let w = WideString::from_wide(&[0x0041, 0xD834, 0x0042, 0]);
    match w.into_string() {
        Ok(_) => panic!("an unpaired surrogate was accepted"),
        Err(back) => assert_eq!(back.to_wide(), vec![0x0041, 0xD834, 0x0042, 0]),
    }
}

#[test]
fn into_string_refuses_lone_low_surrogate() {
    let w = WideString::from_wide(&[0xDD1E]);
    assert!(w.into_string().is_err());
}

#[test]
fn into_string_refuses_trailing_high_surrogate() {
    let w = WideString::from_wide(&[0x0041, 0xD834]);
    assert!(w.into_string().is_err());
}

#[test]
fn wide_round_trip_of_text() {
    for s in ["", "Robot", "\u{e9}t\u{e9}", "\u{1f600} ok \u{10000}"] {
        let back = WideString::from_wide(&s.to_wide()).into_string().ok();
        assert_eq!(back, Some(String::from(s)));
    }
}

#[test]
fn wide_round_trip_fails_on_interior_nul() {
    let back = WideString::from_wide(&"a\0b".to_wide()).into_string().ok();
    assert_eq!(back, Some(String::from("a")));
}

#[test]
fn wide_string_round_trip() {
    let w = WideString::from_wide(&[0xD800, 0x0061, 0, 0x62]);
    let again = WideString::from_wide(&w.to_wide());
    assert_eq!(again.to_wide(), w.to_wide());
}

#[test]
fn decimal_notation() {
    let mut s = String::from("n=");
    push_decimal(&mut s, 0);
    assert_eq!(s, "n=0");
    let mut s = String::new();
    push_decimal(&mut s, 1306);
    assert_eq!(s, "1306");
    let mut s = String::new();
    push_decimal(&mut s, u64::MAX);
    assert_eq!(s, "18446744073709551615");
}

#[test]
fn decoding_is_exact() {
    let units = [0x0052u16, 0xD83E, 0xDD16, 0x00E9];
    let text = WideString::from_wide(&units).into_string().unwrap();
    let mut expected = units.to_vec();
    expected.push(0);
    assert_eq!(text.to_wide(), expected);
}
