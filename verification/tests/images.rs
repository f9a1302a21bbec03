use raf_render::ui_surface::images::{
    builtin_icon_pixels_or, has_visible_texel_bytes, write_icon_pixel, UiSurfaceImageStore,
};

#[test]
fn rgba_images_require_exact_pixel_storage() {
    let mut store = UiSurfaceImageStore::default();
    assert!(store.insert_rgba("icon", [2, 2], vec![255; 16]).is_ok());
    assert!(store.insert_rgba("bad", [2, 2], vec![255; 12]).is_err());
    assert_eq!(store.get("icon").unwrap().size, [2, 2]);
}

#[test]
fn refused_images_say_what_was_expected() {
    let mut store = UiSurfaceImageStore::default();
    let error = store.insert_rgba("bad", [3, 0], vec![0; 5]).unwrap_err();
    assert_eq!(error, "UI image has 5 bytes; expected 12 for 3x1 RGBA.");
    assert!(store.is_empty());
    assert!(store.get("bad").is_none());
}

#[test]
fn replacing_an_image_bumps_its_revision() {
    let mut store = UiSurfaceImageStore::new();
    store.insert_rgba("a", [1, 1], vec![1, 2, 3, 4]).unwrap();
    store.insert_rgba("b", [1, 1], vec![5, 6, 7, 8]).unwrap();
    assert_eq!(store.get("a").unwrap().revision, 1);
    assert_eq!(store.get("b").unwrap().revision, 2);
    store.insert_rgba("a", [0, 1], vec![9, 9, 9, 9]).unwrap();
    let a = store.get("a").unwrap();
    assert_eq!(a.revision, 3);
    assert_eq!(a.size, [1, 1]);
    assert_eq!(a.pixels, vec![9, 9, 9, 9]);
    assert_eq!(store.len(), 2);
}

#[test]
fn removed_images_are_gone() {
    let mut store = UiSurfaceImageStore::new();
    store.insert_rgba("a", [1, 1], vec![1, 2, 3, 4]).unwrap();
    let removed = store.remove("a").unwrap();
    assert_eq!(removed.pixels, vec![1, 2, 3, 4]);
    assert!(store.remove("a").is_none());
    assert!(store.get("a").is_none());
    assert_eq!(store.len(), 0);
}

#[test]
fn icon_pixels_are_white_with_coverage() {
    let mut pixels = vec![0u8; 64 * 64 * 4];
    write_icon_pixel(&mut pixels, 2, 1, 77);
    let index = (64 + 2) * 4;
    assert_eq!(&pixels[index..index + 4], &[255, 255, 255, 77]);
    assert_eq!(pixels.iter().filter(|byte| **byte != 0).count(), 4);
}

fn png(width: u32, height: u32, pixels: Vec<u8>) -> Vec<u8> {
    let image = image::RgbaImage::from_raw(width, height, pixels).unwrap();
    let mut bytes = Vec::new();
    image
        .write_to(&mut std::io::Cursor::new(&mut bytes), image::ImageFormat::Png)
        .unwrap();
    bytes
}

#[test]
fn builtin_icons_use_their_decoded_asset() {
    let mut store = UiSurfaceImageStore::new();
    let bytes = png(2, 1, vec![255, 0, 0, 255, 0, 0, 0, 0]);
    store.ensure_builtin_icon("builtin://icon/select", Some(&bytes), vec![7; 64 * 64 * 4]);
    let image = store.get("builtin://icon/select").unwrap();
    assert_eq!(image.size, [2, 1]);
    assert_eq!(image.pixels, vec![255, 0, 0, 255, 0, 0, 0, 0]);
}

#[test]
fn transparent_or_broken_icon_assets_fall_back_to_the_raster() {
    let mut store = UiSurfaceImageStore::new();
    let clear = png(1, 1, vec![10, 20, 30, 0]);
    store.ensure_builtin_icon("builtin://icon/a", Some(&clear), vec![7; 64 * 64 * 4]);
    store.ensure_builtin_icon("builtin://icon/b", Some(&[1, 2, 3]), vec![8; 64 * 64 * 4]);
    store.ensure_builtin_icon("builtin://icon/c", None, vec![9; 64 * 64 * 4]);
    assert_eq!(store.get("builtin://icon/a").unwrap().size, [64, 64]);
    assert_eq!(store.get("builtin://icon/a").unwrap().pixels[0], 7);
    assert_eq!(store.get("builtin://icon/b").unwrap().pixels[0], 8);
    assert_eq!(store.get("builtin://icon/c").unwrap().pixels.len(), 64 * 64 * 4);
    assert_eq!(store.len(), 3);
}

#[test]
fn an_icon_already_stored_is_kept() {
    let mut store = UiSurfaceImageStore::new();
    store.insert_rgba("builtin://icon/x", [1, 1], vec![1, 2, 3, 4]).unwrap();
    store.ensure_builtin_icon("builtin://icon/x", None, vec![9; 64 * 64 * 4]);
    assert_eq!(store.get("builtin://icon/x").unwrap().pixels, vec![1, 2, 3, 4]);
    assert!(has_visible_texel_bytes(&[0, 0, 0, 0, 0, 0, 0, 1]));
    assert!(!has_visible_texel_bytes(&[0, 0, 0, 0, 9, 9, 9]));
    let (size, pixels) = builtin_icon_pixels_or(Some(([1, 1], vec![0, 0, 0, 0])), vec![5; 4]);
    assert_eq!((size, pixels), ([64, 64], vec![5; 4]));
}

#[test]
fn encoded_png_images_are_decoded_into_the_store() {
    let mut store = UiSurfaceImageStore::new();
    let bytes = png(1, 2, vec![1, 2, 3, 4, 5, 6, 7, 8]);
    assert!(store.insert_encoded("logo", "logo.png", &bytes).is_ok());
    let image = store.get("logo").unwrap();
    assert_eq!(image.size, [1, 2]);
    assert_eq!(image.pixels, vec![1, 2, 3, 4, 5, 6, 7, 8]);
    assert_eq!(image.revision, 1);
}

#[test]
fn undecodable_images_name_their_source() {
    let mut store = UiSurfaceImageStore::new();
    let error = store.insert_encoded("logo", "logo.png", b"not a png").unwrap_err();
    assert!(error.starts_with("Unable to read UI image 'logo.png': "));
    assert!(error.len() > "Unable to read UI image 'logo.png': ".len());
    assert!(store.is_empty());
}

#[test]
fn decoded_images_are_checked_before_they_are_stored() {
    let mut store = UiSurfaceImageStore::new();
    assert_eq!(
        store.insert_decoded("a", "a.png", Err("bad signature".to_string())),
        Err("Unable to read UI image 'a.png': bad signature".to_string())
    );
    assert_eq!(
        store.insert_decoded("a", "a.png", Ok(([2, 1], vec![0; 4]))),
        Err("UI image has 4 bytes; expected 8 for 2x1 RGBA.".to_string())
    );
    assert!(store.insert_decoded("a", "a.png", Ok(([2, 1], vec![0; 8]))).is_ok());
    assert_eq!(store.len(), 1);
}
