use mail_laser::encoding::{decode_base64, decode_header_value, decode_quoted_printable};

fn chars(s: &str) -> Vec<char> {
    s.chars().collect()
}

#[test]
fn quoted_printable_bytes() {
    assert_eq!(decode_quoted_printable(b"a=3Db"), b"a=b".to_vec());
    assert_eq!(decode_quoted_printable(b"soft=\r\nbreak"), b"softbreak".to_vec());
    assert_eq!(decode_quoted_printable(b"soft=\nbreak"), b"softbreak".to_vec());
    assert_eq!(decode_quoted_printable(b"=ZZ and ="), b"=ZZ and =".to_vec());
    assert_eq!(decode_quoted_printable(b"=c3=a9"), vec![0xC3, 0xA9]);
}

#[test]
fn base64_bytes() {
    assert_eq!(decode_base64(b"TWFu"), b"Man".to_vec());
    assert_eq!(decode_base64(b"TWE="), b"Ma".to_vec());
    assert_eq!(decode_base64(b"TQ=="), b"M".to_vec());
    assert_eq!(decode_base64(b"TW\r\nFu"), b"Man".to_vec());
    assert_eq!(decode_base64(b""), Vec::<u8>::new());
}

#[test]
fn header_words() {
    let d = |s: &str| decode_header_value(&chars(s)).into_iter().collect::<String>();
    assert_eq!(d("plain text"), "plain text");
    assert_eq!(d("=?utf-8?q?a_b?="), "a b");
    assert_eq!(d("=?utf-8?B?YQ==?=   =?utf-8?B?Yg==?="), "ab");
    assert_eq!(d("x =?utf-8?B?YQ==?= y"), "x a y");
    assert_eq!(d("=?utf-8?X?abc?="), "=?utf-8?X?abc?=");
}
