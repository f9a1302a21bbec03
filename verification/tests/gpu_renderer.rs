use raf_render::ui_surface::gpu_renderer::{
    atlas_rgba_region, downsample_rgba_premultiplied, image_mip_chain_bytes,
    image_mip_level_count, padded_rgba_rows,
};
use raf_render::ui_surface::text_atlas::UiTextAtlasRect;

#[test]
fn image_mip_levels_cover_small_icon_minification() {
    assert_eq!(image_mip_level_count([1, 1]), 1);
    assert_eq!(image_mip_level_count([16, 8]), 5);
    assert_eq!(image_mip_level_count([64, 64]), 7);

    let (pixels, row_bytes) = padded_rgba_rows(&[255; 4 * 3 * 2], [3, 2]);
    assert_eq!(row_bytes, 256);
    assert_eq!(pixels.len(), 256 * 2);
    assert_eq!(&pixels[..12], &[255; 12]);

    let mip = downsample_rgba_premultiplied(&[255, 0, 0, 255, 0, 0, 0, 0], [2, 1], [1, 1]);
    assert_eq!(mip, vec![255, 0, 0, 128]);
}

#[test]
fn image_budget_counts_the_complete_mip_chain() {
    assert_eq!(image_mip_chain_bytes([1, 1]), 4);
    assert_eq!(image_mip_chain_bytes([2, 2]), 20);
    assert_eq!(image_mip_chain_bytes([4, 2]), 44);
}

#[test]
fn zero_sized_images_count_as_one_texel() {
    assert_eq!(image_mip_level_count([0, 0]), 1);
    assert_eq!(image_mip_chain_bytes([0, 0]), 4);
    assert_eq!(image_mip_level_count([u32::MAX, 1]), 32);
}

#[test]
fn huge_mip_chains_saturate() {
    let bytes = image_mip_chain_bytes([u32::MAX, u32::MAX]);
    assert_eq!(bytes, u64::MAX);
}

#[test]
fn padding_keeps_rows_and_zeroes_the_tail() {
    let source: Vec<u8> = (0u8..24).collect();
    let (pixels, pitch) = padded_rgba_rows(&source, [3, 2]);
    assert_eq!(pitch, 256);
    assert_eq!(&pixels[..12], &source[..12]);
    assert!(pixels[12..256].iter().all(|byte| *byte == 0));
    assert_eq!(&pixels[256..268], &source[12..24]);
}

#[test]
fn aligned_rows_are_copied_unchanged() {
    let source = vec![7u8; 64 * 4 * 2];
    let (pixels, pitch) = padded_rgba_rows(&source, [64, 2]);
    assert_eq!(pitch, 256);
    assert_eq!(pixels, source);
}

#[test]
fn downsampling_weights_colour_by_alpha() {
    // Two opaque texels, red and blue, average to purple.
    let mip = downsample_rgba_premultiplied(&[255, 0, 0, 255, 0, 0, 255, 255], [2, 1], [1, 1]);
    assert_eq!(mip, vec![128, 0, 128, 255]);
    // Fully transparent blocks keep black colour.
    let clear = downsample_rgba_premultiplied(&[9, 9, 9, 0, 9, 9, 9, 0], [2, 1], [1, 1]);
    assert_eq!(clear, vec![0, 0, 0, 0]);
    // A 2 x 2 image halves to 1 x 1 and keeps the mean alpha.
    let square = downsample_rgba_premultiplied(
        &[10, 20, 30, 100, 10, 20, 30, 100, 10, 20, 30, 100, 10, 20, 30, 100],
        [2, 2],
        [1, 1],
    );
    assert_eq!(square, vec![10, 20, 30, 100]);
}

#[test]
fn atlas_regions_expand_to_white_texels() {
    let alpha: Vec<u8> = (0u8..16).collect();
    let region = UiTextAtlasRect { x: 1, y: 1, width: 2, height: 2 };
    let rgba = atlas_rgba_region(&alpha, [4, 4], region);
    assert_eq!(
        rgba,
        vec![255, 255, 255, 5, 255, 255, 255, 6, 255, 255, 255, 9, 255, 255, 255, 10]
    );
}
