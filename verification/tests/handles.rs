use raf_render::handles::{BufferHandle, MeshHandle, SurfaceHandle, TextureHandle};

#[test]
fn handles_are_invalid_until_they_have_a_generation() {
    assert!(!TextureHandle::default().is_valid());
    assert!(TextureHandle::new(4, 1).is_valid());
    assert_eq!(TextureHandle::new(4, 7).index(), 4);
    assert_eq!(TextureHandle::new(4, 7).generation(), 7);
}

#[test]
fn handle_types_keep_generation_identity() {
    let texture = TextureHandle::new(1, 1);
    let buffer = BufferHandle::new(1, 1);
    assert_eq!(texture.index(), buffer.index());
    assert_ne!(texture, TextureHandle::new(1, 2));
}

#[test]
fn invalid_handle_has_no_index_and_no_generation() {
    let handle = MeshHandle::invalid();
    assert_eq!(handle.index(), u32::MAX);
    assert_eq!(handle.generation(), 0);
    assert!(!handle.is_valid());
    assert_eq!(MeshHandle::default(), handle);
}

#[test]
fn a_handle_at_the_last_index_is_invalid_even_with_a_generation() {
    assert!(!SurfaceHandle::new(u32::MAX, 3).is_valid());
    assert!(!SurfaceHandle::new(0, 0).is_valid());
    assert!(SurfaceHandle::new(0, 1).is_valid());
}
