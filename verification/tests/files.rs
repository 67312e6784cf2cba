use quantize_palette::files::{
    has_supported_extension, is_supported_extension, output_target, quantized_file_name, OutputTarget,
};

#[test]
fn extension_matching_is_case_insensitive() {
    assert!(has_supported_extension("a.png"));
    assert!(has_supported_extension("a.PNG"));
    assert!(has_supported_extension("a.JpG"));
    assert!(has_supported_extension("a.qoi"));
    assert!(!has_supported_extension("a.txt"));
    assert!(!has_supported_extension("a"));
}

#[test]
fn extension_comes_from_the_file_name() {
    assert!(has_supported_extension("/some/dir.d/img.webp"));
    assert!(!has_supported_extension("/some/png"));
    assert!(!has_supported_extension(".png"));
    assert!(has_supported_extension("archive.tar.gif"));
}

#[test]
fn in_place_returns_input() {
    assert_eq!(output_target(true, true, true, false), OutputTarget::InPlace);
    assert_eq!(output_target(true, false, false, true), OutputTarget::InPlace);
}

#[test]
fn default_output_is_sibling_quantized_png() {
    assert_eq!(output_target(false, false, true, false), OutputTarget::SiblingQuantized);
    assert_eq!(quantized_file_name("sprite"), "sprite.quantized.png");
}

#[test]
fn output_targets_for_given_output() {
    assert_eq!(output_target(false, true, true, true), OutputTarget::MirrorUnderOutput);
    assert_eq!(output_target(false, true, false, true), OutputTarget::IntoOutputDirectory);
    assert_eq!(output_target(false, true, false, false), OutputTarget::OutputPath);
}

#[test]
fn extension_values_are_compared_case_insensitively() {
    assert!(is_supported_extension(Some("TgA")));
    assert!(is_supported_extension(Some("jpeg")));
    assert!(!is_supported_extension(Some("pngx")));
    assert!(!is_supported_extension(Some("")));
    assert!(!is_supported_extension(None));
}
