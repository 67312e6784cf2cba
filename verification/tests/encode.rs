use quantize_palette::encode::{
    index_pixels, output_kind, output_kind_for_extension, OutputKind, SaveError,
};
use quantize_palette::palette::Palette;

#[test]
fn refuses_lossy_output() {
    assert!(output_kind("x.jpg", false).is_err());
    assert!(output_kind("x.jpeg", false).is_err());
    assert_eq!(
        output_kind("x.JPG", true),
        Err(SaveError::LossyFormat("jpg".to_string()))
    );
}

#[test]
fn indexed_requires_png_extension() {
    assert!(output_kind("x.bmp", true).is_err());
    assert_eq!(
        output_kind("x.BMP", true),
        Err(SaveError::IndexedNeedsPng("bmp".to_string()))
    );
    assert_eq!(output_kind("x", true), Err(SaveError::IndexedNeedsPng(String::new())));
}

#[test]
fn output_kind_accepts_lossless_paths() {
    assert_eq!(output_kind("x.PNG", true), Ok(OutputKind::Indexed));
    for p in ["o.png", "o.bmp", "o.tga", "o.qoi", "o.webp", "noext"] {
        assert_eq!(output_kind(p, false), Ok(OutputKind::ByExtension), "{p}");
    }
}

#[test]
fn indexed_rejects_oversized_palette() {
    // 256 opaque colors + a transparent pixel needs a 257th index.
    let colors: Vec<[u8; 3]> = (0..256).map(|i| [i as u8, 0, 0]).collect();
    let palette = Palette::from_colors(colors);
    let pixels = vec![[0, 0, 0, 255], [0, 0, 0, 0]];
    assert_eq!(
        index_pixels(&pixels, &palette).err(),
        Some(SaveError::PaletteTooLarge(257))
    );
    // Without a transparent pixel all 256 fit.
    let opaque = vec![[0, 0, 0, 255], [255, 0, 0, 255]];
    let img = index_pixels(&opaque, &palette).ok().unwrap();
    assert_eq!(img.indices, vec![0, 255]);
    assert!(img.trns.is_none());
}

#[test]
fn indexed_image_content() {
    let palette = Palette::from_colors(vec![[255, 0, 0], [0, 255, 0], [255, 0, 0]]);
    let pixels = vec![[0, 255, 0, 255], [9, 9, 9, 0], [255, 0, 0, 255]];
    let img = index_pixels(&pixels, &palette).ok().unwrap();
    assert_eq!(img.plte, vec![255, 0, 0, 0, 255, 0, 255, 0, 0, 0, 0, 0]);
    assert_eq!(img.trns, Some(vec![255, 255, 255, 0]));
    assert_eq!(img.indices, vec![1, 3, 0]);
}

#[test]
fn indexed_rejects_foreign_color() {
    let palette = Palette::from_colors(vec![[1, 2, 3]]);
    assert_eq!(
        index_pixels(&vec![[1, 2, 3, 255], [3, 2, 1, 7]], &palette).err(),
        Some(SaveError::ColorNotInPalette)
    );
}

#[test]
fn output_kind_for_extension_values() {
    assert_eq!(
        output_kind_for_extension(Some("JPEG"), false),
        Err(SaveError::LossyFormat("jpeg".to_string()))
    );
    assert_eq!(output_kind_for_extension(Some("Png"), true), Ok(OutputKind::Indexed));
    assert_eq!(output_kind_for_extension(None, false), Ok(OutputKind::ByExtension));
}
