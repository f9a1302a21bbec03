use raf_render::ui_surface::text_atlas::{merge_rects, stable_text_hash, UiTextAtlasRect};

#[test]
fn merging_without_a_dirty_region_takes_the_new_rect() {
    let next = UiTextAtlasRect { x: 3, y: 4, width: 5, height: 6 };
    assert_eq!(merge_rects(None, next, [64, 64]), next);
}

#[test]
fn merged_rect_is_the_bounding_box_cut_at_the_edge() {
    let current = UiTextAtlasRect { x: 10, y: 10, width: 10, height: 10 };
    let next = UiTextAtlasRect { x: 30, y: 5, width: 50, height: 5 };
    assert_eq!(
        merge_rects(Some(current), next, [64, 64]),
        UiTextAtlasRect { x: 10, y: 5, width: 54, height: 15 }
    );
}

#[test]
fn text_hash_is_fnv1a() {
    assert_eq!(stable_text_hash(""), 0xcbf2_9ce4_8422_2325);
    assert_eq!(stable_text_hash("a"), 0xaf63_dc4c_8601_ec8c);
    assert_ne!(stable_text_hash("Project settings"), stable_text_hash("Ajustes del proyecto"));
}
