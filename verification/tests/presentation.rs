use raf_render::ui_surface::presentation::{legacy_paint_order, sort_paint_order, UiSurfacePaintCommand};

fn key(command: UiSurfacePaintCommand) -> (i16, u32) {
    (command.z_index(), command.sequence())
}

#[test]
fn paint_order_keeps_base_text_below_an_elevated_overlay() {
    // Base text emitted first, an overlay fill emitted later on a higher
    // layer, then more base geometry: the overlay paints last.
    let mut commands = vec![
        UiSurfacePaintCommand::Solid { index: 0, z_index: 0, sequence: 0 },
        UiSurfacePaintCommand::Text { index: 0, z_index: 0, sequence: 1 },
        UiSurfacePaintCommand::Solid { index: 1, z_index: 40, sequence: 2 },
        UiSurfacePaintCommand::Text { index: 1, z_index: 40, sequence: 3 },
        UiSurfacePaintCommand::Solid { index: 2, z_index: 0, sequence: 4 },
    ];
    sort_paint_order(&mut commands);
    let base_text = commands
        .iter()
        .position(|c| *c == UiSurfacePaintCommand::Text { index: 0, z_index: 0, sequence: 1 })
        .unwrap();
    let overlay = commands
        .iter()
        .position(|c| *c == UiSurfacePaintCommand::Solid { index: 1, z_index: 40, sequence: 2 })
        .unwrap();
    assert!(base_text < overlay);
    assert_eq!(
        commands.iter().map(|c| key(*c)).collect::<Vec<_>>(),
        vec![(0, 0), (0, 1), (0, 4), (40, 2), (40, 3)]
    );
}

#[test]
fn paint_sort_is_stable_for_equal_keys() {
    let mut commands = vec![
        UiSurfacePaintCommand::Image { index: 3, z_index: 2, sequence: 9 },
        UiSurfacePaintCommand::Solid { index: 7, z_index: 2, sequence: 9 },
        UiSurfacePaintCommand::Text { index: 1, z_index: -5, sequence: 100 },
        UiSurfacePaintCommand::Text { index: 2, z_index: 2, sequence: 9 },
    ];
    sort_paint_order(&mut commands);
    assert_eq!(
        commands,
        vec![
            UiSurfacePaintCommand::Text { index: 1, z_index: -5, sequence: 100 },
            UiSurfacePaintCommand::Image { index: 3, z_index: 2, sequence: 9 },
            UiSurfacePaintCommand::Solid { index: 7, z_index: 2, sequence: 9 },
            UiSurfacePaintCommand::Text { index: 2, z_index: 2, sequence: 9 },
        ]
    );
}

#[test]
fn sorting_an_empty_paint_order_keeps_it_empty() {
    let mut commands: Vec<UiSurfacePaintCommand> = Vec::new();
    sort_paint_order(&mut commands);
    assert!(commands.is_empty());
}

#[test]
fn legacy_paint_order_numbers_solids_then_text_then_images() {
    let order = legacy_paint_order(&[3, 0], &[0], &[1]);
    assert_eq!(
        order,
        vec![
            UiSurfacePaintCommand::Solid { index: 1, z_index: 0, sequence: 1 },
            UiSurfacePaintCommand::Text { index: 0, z_index: 0, sequence: 2 },
            UiSurfacePaintCommand::Image { index: 0, z_index: 1, sequence: 3 },
            UiSurfacePaintCommand::Solid { index: 0, z_index: 3, sequence: 0 },
        ]
    );
    assert!(legacy_paint_order(&[], &[], &[]).is_empty());
}
