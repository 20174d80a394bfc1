use comic_core::session::{
    page_order_from_flag, page_order_to_flag, rotation_from_degrees, rotation_to_degrees,
    scale_mode_from_code, scale_mode_to_code,
};
use comic_core::types::{PageOrder, Rotation, ScaleMode};

#[test]
fn stored_codes() {
    assert_eq!(rotation_to_degrees(Rotation::R0), 0);
    assert_eq!(rotation_to_degrees(Rotation::R90), 90);
    assert_eq!(rotation_to_degrees(Rotation::R180), 180);
    assert_eq!(rotation_to_degrees(Rotation::R270), 270);
    assert_eq!(scale_mode_to_code(ScaleMode::Original), 0);
    assert_eq!(scale_mode_to_code(ScaleMode::FitWindow), 1);
    assert_eq!(scale_mode_to_code(ScaleMode::FitWidth), 2);
    assert!(page_order_to_flag(PageOrder::RightToLeft));
    assert!(!page_order_to_flag(PageOrder::LeftToRight));
}

#[test]
fn unknown_codes_read_as_defaults() {
    assert_eq!(rotation_from_degrees(45), Rotation::R0);
    assert_eq!(rotation_from_degrees(-90), Rotation::R0);
    assert_eq!(scale_mode_from_code(7), ScaleMode::FitWindow);
    assert_eq!(scale_mode_from_code(-1), ScaleMode::FitWindow);
}

#[test]
fn saved_fields_load_back() {
    for r in [Rotation::R0, Rotation::R90, Rotation::R180, Rotation::R270] {
        assert_eq!(rotation_from_degrees(rotation_to_degrees(r)), r);
    }
    for m in [ScaleMode::Original, ScaleMode::FitWindow, ScaleMode::FitWidth] {
        assert_eq!(scale_mode_from_code(scale_mode_to_code(m)), m);
    }
    for o in [PageOrder::LeftToRight, PageOrder::RightToLeft] {
        assert_eq!(page_order_from_flag(page_order_to_flag(o)), o);
    }
}

#[test]
fn defaults() {
    assert_eq!(Rotation::default(), Rotation::R0);
    assert_eq!(ScaleMode::default(), ScaleMode::FitWindow);
    assert_eq!(PageOrder::default(), PageOrder::LeftToRight);
    assert_eq!(comic_core::types::SortOrder::default(), comic_core::types::SortOrder::Natural);
}
