use text_document::parser_tools::image_options::base64_encode;
use text_document::parser_tools::{ExportImage, ExportImages};

#[test]
fn base64_matches_the_rfc_test_vectors() {
    for (input, expected) in [
        ("", ""),
        ("f", "Zg=="),
        ("fo", "Zm8="),
        ("foo", "Zm9v"),
        ("foob", "Zm9vYg=="),
        ("fooba", "Zm9vYmE="),
        ("foobar", "Zm9vYmFy"),
    ] {
        assert_eq!(base64_encode(input.as_bytes()), expected, "{input:?}");
    }
}

#[test]
fn base64_handles_bytes_above_ascii() {
    assert_eq!(base64_encode(&[0xff, 0xfe, 0xfd]), "//79");
    assert_eq!(base64_encode(&[0x00, 0x00, 0x00]), "AAAA");
}

#[test]
fn extension_falls_back_visibly_for_unknown_types() {
    assert_eq!(ExportImage::new(vec![], "image/png").extension(), "png");
    assert_eq!(ExportImage::new(vec![], "image/jpeg").extension(), "jpg");
    assert_eq!(
        ExportImage::new(vec![], "application/x-thing").extension(),
        "bin"
    );
}

#[test]
fn images_iterate_in_a_stable_order() {
    let build = || {
        ExportImages::from_iter(vec![
            ("z.png", ExportImage::new(vec![1], "image/png")),
            ("a.png", ExportImage::new(vec![2], "image/png")),
            ("m.png", ExportImage::new(vec![3], "image/png")),
        ])
    };
    let first: Vec<String> = build().iter().into_iter().map(|(k, _)| k.clone()).collect();
    let second: Vec<String> = build().iter().into_iter().map(|(k, _)| k.clone()).collect();
    assert_eq!(first, second);
    assert_eq!(first, vec!["a.png", "m.png", "z.png"]);
}
