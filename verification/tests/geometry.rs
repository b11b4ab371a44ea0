use slideshow::geometry::{letterbox_rect, round_div, smart_crop_rect, Rect};

#[test]
fn wider_source_loses_width_on_both_sides() {
    // 1200x600 is wider than a 1080x640 band: the height stays and the width
    // becomes round(600 * 1080 / 640) = round(1012.5) = 1013.
    let rect = smart_crop_rect(1200, 600, 1080, 640).unwrap();
    assert_eq!(rect.width, 1013);
    assert_eq!(rect.x, (1200 - 1013) / 2);
    assert_eq!(rect, Rect { x: 93, y: 0, width: 1013, height: 600 });
}

#[test]
fn taller_source_loses_height_at_top_and_bottom() {
    // 800x600 is less wide than a 1080x640 band: the width stays and the
    // height becomes round(800 * 640 / 1080) = round(474.07) = 474.
    let rect = smart_crop_rect(800, 600, 1080, 640).unwrap();
    assert_eq!(rect, Rect { x: 0, y: 63, width: 800, height: 474 });
}

#[test]
fn source_of_the_same_shape_is_not_cropped() {
    assert_eq!(
        smart_crop_rect(2160, 1280, 1080, 640),
        Some(Rect { x: 0, y: 0, width: 2160, height: 1280 })
    );
    assert_eq!(
        smart_crop_rect(27, 16, 1080, 640),
        Some(Rect { x: 0, y: 0, width: 27, height: 16 })
    );
}

#[test]
fn crop_stays_inside_the_source_at_the_extremes() {
    let rect = smart_crop_rect(u32::MAX, 1, 1, u32::MAX).unwrap();
    assert_eq!(rect, Rect { x: (u32::MAX - 0) / 2, y: 0, width: 0, height: 1 });
    let rect = smart_crop_rect(1, u32::MAX, u32::MAX, 1).unwrap();
    assert_eq!(rect, Rect { x: 0, y: u32::MAX / 2, width: 1, height: 0 });
    let rect = smart_crop_rect(u32::MAX, u32::MAX, u32::MAX, u32::MAX).unwrap();
    assert_eq!(rect, Rect { x: 0, y: 0, width: u32::MAX, height: u32::MAX });
}

#[test]
fn crop_of_an_empty_source_is_empty() {
    assert_eq!(smart_crop_rect(0, 0, 1080, 640), Some(Rect { x: 0, y: 0, width: 0, height: 0 }));
    assert_eq!(smart_crop_rect(0, 10, 1080, 640), Some(Rect { x: 0, y: 5, width: 0, height: 0 }));
}

#[test]
fn target_without_a_shape_gives_no_crop() {
    assert_eq!(smart_crop_rect(800, 600, 0, 640), None);
    assert_eq!(smart_crop_rect(800, 600, 1080, 0), None);
    assert_eq!(smart_crop_rect(800, 600, 0, 0), None);
}

#[test]
fn quotients_round_to_nearest_with_halves_up() {
    assert_eq!(round_div(0, 7), 0);
    assert_eq!(round_div(3, 7), 0);
    assert_eq!(round_div(4, 7), 1);
    assert_eq!(round_div(7, 2), 4);
    assert_eq!(round_div(5, 2), 3);
    assert_eq!(round_div(648_000, 640), 1013);
    assert_eq!(round_div(u64::MAX, 1), u64::MAX);
    assert_eq!(round_div(u64::MAX, u64::MAX), 1);
    assert_eq!(round_div(u64::MAX, 2), 1 << 63);
}

#[test]
fn letterbox_pads_a_less_wide_source_left_and_right() {
    // 800x600 in 1280x720: the height fills the frame, the width becomes
    // round(800 * 720 / 600) = 960, with 160 columns on either side.
    assert_eq!(
        letterbox_rect(800, 600, 1280, 720),
        Some(Rect { x: 160, y: 0, width: 960, height: 720 })
    );
}

#[test]
fn letterbox_pads_a_wider_source_above_and_below() {
    // 2000x500 in 1280x720: the width fills the frame, the height becomes
    // round(500 * 1280 / 2000) = 320, with 200 rows above and below.
    assert_eq!(
        letterbox_rect(2000, 500, 1280, 720),
        Some(Rect { x: 0, y: 200, width: 1280, height: 320 })
    );
}

#[test]
fn letterbox_fills_the_frame_for_the_same_shape() {
    assert_eq!(
        letterbox_rect(1920, 1080, 1280, 720),
        Some(Rect { x: 0, y: 0, width: 1280, height: 720 })
    );
    assert_eq!(
        letterbox_rect(16, 9, 1280, 720),
        Some(Rect { x: 0, y: 0, width: 1280, height: 720 })
    );
}

#[test]
fn letterbox_keeps_at_least_one_pixel() {
    assert_eq!(
        letterbox_rect(100_000, 1, 1280, 720),
        Some(Rect { x: 0, y: 359, width: 1280, height: 1 })
    );
    assert_eq!(
        letterbox_rect(1, 100_000, 1280, 720),
        Some(Rect { x: 639, y: 0, width: 1, height: 720 })
    );
}

#[test]
fn letterbox_needs_a_source_and_a_target() {
    assert_eq!(letterbox_rect(0, 600, 1280, 720), None);
    assert_eq!(letterbox_rect(800, 0, 1280, 720), None);
    assert_eq!(letterbox_rect(800, 600, 0, 720), None);
    assert_eq!(letterbox_rect(800, 600, 1280, 0), None);
}
