use socketioxide::base64;
use socketioxide::sid::Sid;
use socketioxide::text;

#[test]
fn decimal_is_written_without_leading_zeros() {
    let mut out = b"n=".to_vec();
    text::push_decimal(&mut out, 0);
    out.push(b',');
    text::push_decimal(&mut out, 1000000);
    out.push(b',');
    text::push_decimal(&mut out, u64::MAX);
    assert_eq!(out, b"n=0,1000000,18446744073709551615".to_vec());
}

#[test]
fn digits_are_scanned_and_read() {
    let s = b"ab123cd";
    assert_eq!(text::scan_digits(s, 2), 5);
    assert_eq!(text::scan_digits(s, 0), 0);
    assert_eq!(text::parse_digits(s, 2, 5), Some(123));
    assert_eq!(text::parse_digits(s, 2, 2), Some(0));
    assert_eq!(text::parse_digits(b"007", 0, 3), Some(7));
}

#[test]
fn digits_beyond_sixty_four_bits_are_refused() {
    assert_eq!(text::parse_digits(b"18446744073709551615", 0, 20), Some(u64::MAX));
    assert_eq!(text::parse_digits(b"18446744073709551616", 0, 20), None);
    assert_eq!(text::parse_digits(b"99999999999999999999999", 0, 23), None);
}

#[test]
fn bytes_are_found_copied_and_compared() {
    assert_eq!(text::scan_to(b"/chat,1", b',', 0), 5);
    assert_eq!(text::scan_to(b"/chat", b',', 0), 5);
    assert_eq!(text::copy_range(b"/chat,1", 1, 5), b"chat".to_vec());
    assert!(text::bytes_eq(b"probe", b"probe"));
    assert!(!text::bytes_eq(b"probe", b"prob"));
    assert!(!text::bytes_eq(b"probe", b"proba"));
    let mut out = b"ab".to_vec();
    text::append(&mut out, b"cd");
    assert_eq!(out, b"abcd".to_vec());
}

#[test]
fn sid_text_has_sixteen_url_safe_characters() {
    assert_eq!(Sid::new(0).to_text(), b"AAAAAAAAAAAAAAAA".to_vec());
    assert_eq!(Sid::new(1).to_text(), b"AAAAAAAAAAAAAAAB".to_vec());
    assert_eq!(Sid::new(26).to_text(), b"AAAAAAAAAAAAAAAa".to_vec());
    assert_eq!(Sid::new(52).to_text(), b"AAAAAAAAAAAAAAA0".to_vec());
    assert_eq!(Sid::new(62).to_text(), b"AAAAAAAAAAAAAAA-".to_vec());
    assert_eq!(Sid::new(63).to_text(), b"AAAAAAAAAAAAAAA_".to_vec());
    assert_eq!(Sid::new(64).to_text(), b"AAAAAAAAAAAAAABA".to_vec());
    assert_eq!(Sid::new((1u128 << 96) - 1).to_text(), b"________________".to_vec());
}

#[test]
fn sid_keeps_the_low_ninety_six_bits() {
    assert_eq!(Sid::new(1u128 << 96).to_bits(), 0);
    assert_eq!(Sid::new((1u128 << 96) + 5).to_bits(), 5);
    assert_eq!(Sid::new(u128::MAX), Sid::new((1u128 << 96) - 1));
}

#[test]
fn sid_text_reads_back() {
    for bits in [0u128, 1, 63, 64, 4095, 0xDEAD_BEEF, (1u128 << 96) - 1] {
        let sid = Sid::new(bits);
        assert_eq!(Sid::parse(&sid.to_text()), Some(sid));
    }
    let sid = Sid::parse(b"AAAAAAAAAAAAAABC").unwrap();
    assert_eq!(sid.to_bits(), 64 + 2);
    assert_eq!(sid.to_text(), b"AAAAAAAAAAAAAABC".to_vec());
}

#[test]
fn sid_text_of_wrong_shape_is_refused() {
    assert_eq!(Sid::parse(b""), None);
    assert_eq!(Sid::parse(b"AAAAAAAAAAAAAAA"), None);
    assert_eq!(Sid::parse(b"AAAAAAAAAAAAAAAAA"), None);
    assert_eq!(Sid::parse(b"AAAAAAAAAAAAAAA+"), None);
    assert_eq!(Sid::parse(b"AAAA/AAAAAAAAAAA"), None);
    assert_eq!(Sid::parse(b"=AAAAAAAAAAAAAAA"), None);
}

fn b64(data: &[u8]) -> Vec<u8> {
    let mut out = Vec::new();
    base64::encode_into(&mut out, data);
    out
}

#[test]
fn base64_of_the_usual_vectors() {
    assert_eq!(b64(b""), b"".to_vec());
    assert_eq!(b64(b"f"), b"Zg==".to_vec());
    assert_eq!(b64(b"fo"), b"Zm8=".to_vec());
    assert_eq!(b64(b"foo"), b"Zm9v".to_vec());
    assert_eq!(b64(b"foob"), b"Zm9vYg==".to_vec());
    assert_eq!(b64(b"fooba"), b"Zm9vYmE=".to_vec());
    assert_eq!(b64(b"foobar"), b"Zm9vYmFy".to_vec());
    assert_eq!(b64(&[0xDE, 0xAD, 0xBE, 0xEF]), b"3q2+7w==".to_vec());
    assert_eq!(b64(&[0xFB, 0xFF]), b"+/8=".to_vec());
}

#[test]
fn base64_appends_to_what_is_there() {
    let mut out = b"b".to_vec();
    base64::encode_into(&mut out, b"hi");
    assert_eq!(out, b"baGk=".to_vec());
}

#[test]
fn base64_reads_back() {
    assert_eq!(base64::decode(b""), Some(Vec::new()));
    assert_eq!(base64::decode(b"Zg=="), Some(b"f".to_vec()));
    assert_eq!(base64::decode(b"Zm8="), Some(b"fo".to_vec()));
    assert_eq!(base64::decode(b"Zm9vYmFy"), Some(b"foobar".to_vec()));
    assert_eq!(base64::decode(b"3q2+7w=="), Some(vec![0xDE, 0xAD, 0xBE, 0xEF]));
    let all: Vec<u8> = (0..=255).collect();
    assert_eq!(base64::decode(&b64(&all)), Some(all));
}

#[test]
fn base64_of_wrong_shape_is_refused() {
    assert_eq!(base64::decode(b"Zg"), None);
    assert_eq!(base64::decode(b"Zg="), None);
    assert_eq!(base64::decode(b"Zm9v="), None);
    assert_eq!(base64::decode(b"Z-9v"), None);
    assert_eq!(base64::decode(b"Zg==Zm9v"), None);
    assert_eq!(base64::decode(b"=g=="), None);
    assert_eq!(base64::decode(b"Zh=="), None);
    assert_eq!(base64::decode(b"Zm9="), None);
    assert_eq!(base64::decode(b"Zm8=Zg=="), None);
}
