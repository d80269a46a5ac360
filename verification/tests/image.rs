use glidewin::image::{capture_file_name, fits_base64, image_url};

#[test]
fn base64_test_vectors() {
    for (bytes, digits) in [
        ("", ""),
        ("f", "Zg=="),
        ("fo", "Zm8="),
        ("foo", "Zm9v"),
        ("foob", "Zm9vYg=="),
        ("fooba", "Zm9vYmE="),
        ("foobar", "Zm9vYmFy"),
    ] {
        assert_eq!(image_url(bytes.as_bytes()), format!("data:image/png;base64,{}", digits));
    }
}

#[test]
fn base64_uses_the_standard_alphabet() {
    assert_eq!(image_url(&[0xfb, 0xff, 0xbf]), "data:image/png;base64,+/+/");
    assert_eq!(image_url(&[0x00, 0x10, 0x83]), "data:image/png;base64,ABCD");
}

#[test]
fn base64_fits_up_to_the_size_of_memory() {
    assert!(fits_base64(0));
    assert!(fits_base64(50_000_000));
    assert!(!fits_base64(usize::MAX));
}

#[test]
fn captures_are_named_after_the_second() {
    assert_eq!(capture_file_name(1700000000), "glidewin_capture_1700000000.png");
    assert_eq!(capture_file_name(0), "glidewin_capture_0.png");
    assert_ne!(capture_file_name(1), capture_file_name(10));
}

#[test]
fn base64_has_four_digits_for_three_bytes() {
    for n in 0..20usize {
        let digits = image_url(&vec![7u8; n]).len() - "data:image/png;base64,".len();
        assert_eq!(digits, (n + 2) / 3 * 4);
    }
}
