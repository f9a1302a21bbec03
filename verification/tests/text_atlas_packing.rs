use raf_render::ui_surface::text_atlas::{UiTextAtlas, UiTextAtlasKey, UiTextRaster};

fn key(text_hash: u64) -> UiTextAtlasKey {
    UiTextAtlasKey {
        text_hash,
        role: 3,
        weight: 600,
        size_px: 14,
        line_height_px: 18,
        max_width_px: 180,
    }
}

fn raster(width: usize, height: usize, coverage: u8) -> UiTextRaster {
    UiTextRaster::new(width, height, vec![coverage; width * height]).unwrap()
}

#[test]
fn repeated_text_reuses_the_same_slot() {
    let mut atlas = UiTextAtlas::new([256, 128]);
    let keys = [key(1)];
    let stats = atlas.sync_keys(&keys, &|_| raster(120, 20, 200));
    assert_eq!(stats.allocated, 1);
    let first = atlas.slot_for(key(1)).unwrap().rect;
    let stats = atlas.sync_keys(&keys, &|_| raster(120, 20, 200));
    assert_eq!(stats.reused, 1);
    assert_eq!(atlas.slot_for(key(1)).unwrap().rect, first);
}

#[test]
fn resolved_language_text_gets_a_distinct_slot() {
    let mut atlas = UiTextAtlas::new([256, 128]);
    atlas.sync_keys(&[key(10)], &|_| raster(100, 20, 255));
    assert_eq!(atlas.sync_keys(&[key(11)], &|_| raster(130, 20, 255)).allocated, 1);
    assert_eq!(atlas.slot_count(), 2);
}

#[test]
fn identical_text_style_reuses_a_slot_across_nodes() {
    let mut atlas = UiTextAtlas::new([256, 128]);
    let stats = atlas.sync_keys(&[key(5), key(5)], &|_| raster(50, 20, 90));
    assert_eq!(stats.allocated, 1);
    assert_eq!(stats.reused, 1);
    assert_eq!(atlas.slot_count(), 1);
}

#[test]
fn a_full_atlas_grows_before_evicting_visible_text() {
    let mut atlas = UiTextAtlas::new([32, 32]);
    let keys = vec![key(7); 32];
    let stats = atlas.sync_keys(&keys, &|_| raster(40, 14, 255));
    assert_eq!(stats.evicted, 0);
    assert_eq!(stats.overflowed, 0);
    assert!(atlas.size()[0] > 32 || atlas.size()[1] > 32);
    assert!(atlas.is_dirty());
}

#[test]
fn growing_atlas_preserves_existing_slots() {
    let mut atlas = UiTextAtlas::new([32, 32]);
    atlas.sync_keys(&[key(1)], &|_| raster(20, 10, 77));
    let first_rect = atlas.slot_for(key(1)).unwrap().rect;
    let first_texel = atlas.pixels()[usize::from(first_rect.y) * 32 + usize::from(first_rect.x)];

    atlas.sync_keys(&[key(1), key(2)], &|index| {
        if index == 0 {
            raster(20, 10, 77)
        } else {
            raster(60, 30, 9)
        }
    });

    let rect = atlas.slot_for(key(1)).unwrap().rect;
    assert_eq!(rect, first_rect);
    assert!(atlas.slot_for(key(2)).is_some());
    assert!(atlas.size()[0] > 32 || atlas.size()[1] > 32);
    let width = usize::from(atlas.size()[0]);
    assert_eq!(atlas.pixels()[usize::from(rect.y) * width + usize::from(rect.x)], first_texel);
    assert_eq!(first_texel, 77);
}

#[test]
fn overflow_recovery_keeps_earlier_slots_in_the_same_frame() {
    let mut atlas = UiTextAtlas::new([2_048, 2_048]);
    atlas.sync_keys(&[key(1)], &|_| raster(40, 16, 1));
    let stats = atlas.sync_keys(&[key(1), key(2)], &|index| {
        if index == 0 {
            raster(40, 16, 1)
        } else {
            raster(5_000, 16, 1)
        }
    });
    assert!(stats.overflowed > 0);
    assert!(stats.evicted > 0);
    assert!(atlas.slot_for(key(1)).is_some());
}

#[test]
fn placed_text_reads_back_its_coverage_and_marks_the_atlas_dirty() {
    let mut atlas = UiTextAtlas::new([64, 64]);
    atlas.mark_uploaded();
    assert!(!atlas.is_dirty());
    assert_eq!(atlas.dirty_region(), None);
    let revision = atlas.revision();
    let coverage: Vec<u8> = (0..6).collect();
    let text = UiTextRaster::new(3, 2, coverage).unwrap();
    atlas.sync_keys(&[key(3)], &|_| UiTextRaster::new(3, 2, (0..6).collect()).unwrap());
    assert_eq!(text.width(), 3);
    let rect = atlas.slot_for(key(3)).unwrap().rect;
    assert_eq!((rect.x, rect.y, rect.width, rect.height), (1, 1, 3, 2));
    let row = |y: usize| &atlas.pixels()[y * 64 + 1..y * 64 + 4];
    assert_eq!(row(1), &[0, 1, 2]);
    assert_eq!(row(2), &[3, 4, 5]);
    assert!(atlas.is_dirty());
    assert_eq!(atlas.dirty_region().unwrap(), rect);
    assert!(atlas.revision() > revision);
    assert!(UiTextRaster::new(2, 2, vec![0; 3]).is_none());
}

#[test]
fn clearing_the_atlas_drops_every_text() {
    let mut atlas = UiTextAtlas::default();
    assert_eq!(atlas.size(), [1024, 1024]);
    atlas.sync_keys(&[key(1), key(2)], &|_| raster(10, 10, 5));
    assert_eq!(atlas.slot_count(), 2);
    atlas.clear();
    assert_eq!(atlas.slot_count(), 0);
    assert!(atlas.pixels().iter().all(|p| *p == 0));
    assert!(atlas.slot_for(key(1)).is_none());
}
