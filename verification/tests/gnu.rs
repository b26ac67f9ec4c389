use rapidarchive::tar::gnu::format_gnu_numeral;


#[test]
fn format_gnu_numeral_8() {
    assert_eq!(match format_gnu_numeral(0o755, 8) {
        Some(x) => x,
        None => vec![]
    }, vec![0x30, 0x30, 0x30, 0x30, 0x37, 0x35, 0x35, 0x00]);
}

#[test]
fn format_gnu_numeral_8_large() {
    assert_eq!(match format_gnu_numeral(0xDEADBE, 8) {
        Some(x) => x,
        None => vec![]
    }, vec![0x80, 0x00, 0x00, 0x00, 0x00, 0xDE, 0xAD, 0xBE]);
}

#[test]
fn format_gnu_numeral_8_verylarge() {
    assert!(match format_gnu_numeral(0xDEADBEEFDEADBEEF as u64, 8) {
        Some(_) => false,
        None => true
    });
}
