use quantize_palette::palette::Palette;
use quantize_palette::quantize::{
    assemble, bayer_threshold, classify, diffusion_targets, kernel_divisor, kernel_of,
    kernel_taps, output_pixel, AlphaMode, Dither, Kernel,
};

#[test]
fn classify_binarize_and_keep() {
    assert_eq!(classify(127, AlphaMode::Binarize(128)), None);
    assert_eq!(classify(128, AlphaMode::Binarize(128)), Some(255));
    assert_eq!(classify(0, AlphaMode::Keep), None);
    assert_eq!(classify(100, AlphaMode::Keep), Some(100));
    assert_eq!(classify(0, AlphaMode::Binarize(0)), Some(255));
}

#[test]
fn binarized_alpha_is_zero_or_full_after_assembly() {
    let palette = Palette::from_colors(vec![[228, 59, 68]]);
    let pixels = vec![
        [200, 50, 50, 10],
        [200, 50, 50, 127],
        [200, 50, 50, 128],
        [200, 50, 50, 255],
    ];
    let out = assemble(&pixels, AlphaMode::Binarize(128), &palette, &vec![0, 0, 0, 0]);
    let alphas: Vec<u8> = out.iter().map(|p| p[3]).collect();
    assert_eq!(alphas, vec![0, 0, 255, 255]);
    assert_eq!(out[0], [0, 0, 0, 0]);
    assert_eq!(out[2], [228, 59, 68, 255]);
}

#[test]
fn keep_alpha_passes_alpha_through() {
    let palette = Palette::from_colors(vec![[255, 0, 0], [0, 255, 0]]);
    let pixels = vec![[10, 250, 10, 0], [10, 250, 10, 100]];
    let out = assemble(&pixels, AlphaMode::Keep, &palette, &vec![7, 1]);
    assert_eq!(out, vec![[0, 0, 0, 0], [0, 255, 0, 100]]);
    assert_eq!(output_pixel([1, 2, 3, 4], AlphaMode::Keep, [9, 8, 7]), [9, 8, 7, 4]);
}

#[test]
fn kernels_and_their_weights() {
    assert_eq!(kernel_of(Dither::FloydSteinberg), Some(Kernel::FloydSteinberg));
    assert_eq!(kernel_of(Dither::Atkinson), Some(Kernel::Atkinson));
    assert_eq!(kernel_of(Dither::Ordered), None);
    assert_eq!(kernel_of(Dither::Flat), None);
    let fs: u32 = kernel_taps(Kernel::FloydSteinberg).iter().map(|t| t.2).sum();
    assert_eq!(fs, kernel_divisor(Kernel::FloydSteinberg));
    assert_eq!(kernel_divisor(Kernel::Atkinson), 8);
    assert_eq!(kernel_taps(Kernel::Atkinson).len(), 6);
}

#[test]
fn diffusion_stays_inside_and_skips_transparent() {
    // 3x2 image; pixel 4 (x=1, y=1) is transparent.
    let opaque = vec![true, true, true, true, false, true];
    // From (0, 0): right (1,0)=1 w7; down-left out; down (0,1)=3 w5; down-right (1,1)=4 transparent.
    assert_eq!(
        diffusion_targets(Kernel::FloydSteinberg, 0, 0, 3, 2, &opaque),
        vec![(1, 7), (3, 5)]
    );
    // From the last pixel nothing is in range.
    assert_eq!(
        diffusion_targets(Kernel::FloydSteinberg, 2, 1, 3, 2, &opaque),
        Vec::<(usize, u32)>::new()
    );
    // Atkinson from (0, 0): (1,0), (2,0), (0,1); (1,1) is transparent; (0,2) is out.
    assert_eq!(
        diffusion_targets(Kernel::Atkinson, 0, 0, 3, 2, &opaque),
        vec![(1, 1), (2, 1), (3, 1)]
    );
}

#[test]
fn bayer_matrix_entries() {
    assert_eq!(bayer_threshold(0, 0), 0);
    assert_eq!(bayer_threshold(1, 0), 32);
    assert_eq!(bayer_threshold(0, 1), 48);
    assert_eq!(bayer_threshold(7, 7), 21);
    assert_eq!(bayer_threshold(9, 8), 32);
    let mut seen = vec![false; 64];
    for y in 0..8 {
        for x in 0..8 {
            seen[bayer_threshold(x, y) as usize] = true;
        }
    }
    assert!(seen.iter().all(|s| *s));
}
