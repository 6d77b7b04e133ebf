use blueprint2mod::blueprint::ImageBoundingBox;
use blueprint2mod::ocr::{
    align_words, annotation_kind, binarize_for_ocr, match_room_type, room_type_from_upper, AnnotationKind,
    KnownRoomType, WordBox,
};
use blueprint2mod::raster::GrayRaster;

#[test]
fn match_bedroom_label() {
    assert_eq!(match_room_type("BEDROOM"), Some(KnownRoomType::Bedroom));
    assert_eq!(match_room_type("bedroom"), Some(KnownRoomType::Bedroom));
}

#[test]
fn match_living_room_label() {
    assert_eq!(match_room_type("LIVING ROOM"), Some(KnownRoomType::LivingRoom));
}

#[test]
fn match_kitchen_label() {
    assert_eq!(match_room_type("KITCHEN"), Some(KnownRoomType::Kitchen));
}

#[test]
fn room_labels_keywords_and_short_forms() {
    assert_eq!(match_room_type("  master bedroom  "), Some(KnownRoomType::Bedroom));
    assert_eq!(match_room_type("Dining"), Some(KnownRoomType::DiningRoom));
    assert_eq!(match_room_type("bath room 2"), Some(KnownRoomType::Bathroom));
    assert_eq!(match_room_type("wc"), Some(KnownRoomType::Bathroom));
    assert_eq!(match_room_type("Car Garage"), Some(KnownRoomType::Garage));
    assert_eq!(match_room_type("corridor"), Some(KnownRoomType::Hallway));
    assert_eq!(match_room_type("den"), Some(KnownRoomType::Study));
    assert_eq!(match_room_type("utility"), Some(KnownRoomType::Laundry));
    assert_eq!(match_room_type("KIT"), Some(KnownRoomType::Kitchen));
    assert_eq!(match_room_type("KITCHENETTE"), None);
    assert_eq!(match_room_type("PORCH"), None);
    assert_eq!(match_room_type(""), None);
    assert_eq!(room_type_from_upper("LAUNDRY ROOM"), Some(KnownRoomType::Laundry));
    assert_eq!(room_type_from_upper("bedroom"), None);
}

#[test]
fn annotation_kind_rules() {
    assert_eq!(annotation_kind(false, true, "KITCHEN"), AnnotationKind::Unreadable);
    assert_eq!(annotation_kind(true, true, "12'6\""), AnnotationKind::DimensionValue);
    assert_eq!(annotation_kind(true, false, "kitchen"), AnnotationKind::RoomLabel(KnownRoomType::Kitchen));
    assert_eq!(annotation_kind(true, false, "PORCH"), AnnotationKind::RoomLabelUnknown);
    assert_eq!(annotation_kind(true, false, "ab"), AnnotationKind::Unreadable);
}

#[test]
fn words_pair_with_boxes_then_whole_image() {
    let boxes = vec![
        WordBox { x: 5, y: -3, w: 20, h: 10 },
        WordBox { x: -1, y: 7, w: -4, h: 9 },
    ];
    let words = align_words("  KITCHEN 3.2m\n BATH ", Some(boxes), 640, 480);
    assert_eq!(words.len(), 3);
    assert_eq!(words[0].text, "KITCHEN");
    assert_eq!(words[0].bounds, ImageBoundingBox { x: 5, y: 0, width: 20, height: 10 });
    assert_eq!(words[1].text, "3.2m");
    assert_eq!(words[1].bounds, ImageBoundingBox { x: 0, y: 7, width: 0, height: 9 });
    assert_eq!(words[2].text, "BATH");
    assert_eq!(words[2].bounds, ImageBoundingBox { x: 0, y: 0, width: 640, height: 480 });
}

#[test]
fn words_without_boxes_cover_whole_image() {
    let words = align_words("A B", None, 10, 20);
    assert_eq!(words.len(), 2);
    for w in &words {
        assert_eq!(w.bounds, ImageBoundingBox { x: 0, y: 0, width: 10, height: 20 });
    }
    assert!(align_words(" \t\n", None, 10, 20).is_empty());
}

#[test]
fn binarize_thresholds_at_128() {
    let gray = GrayRaster { width: 4, height: 1, data: vec![0, 128, 129, 255] };
    let bin = binarize_for_ocr(&gray);
    assert_eq!(bin.width, 4);
    assert_eq!(bin.height, 1);
    assert_eq!(bin.data, vec![0, 0, 255, 255]);
}

#[test]
fn room_labels_ignore_case_and_surrounding_spaces() {
    for text in ["Living Room", "kitchen", " Bath ", "Master Bedroom", "porch"] {
        let expected = match_room_type(text);
        assert_eq!(match_room_type(&text.to_ascii_lowercase()), expected);
        assert_eq!(match_room_type(&text.to_ascii_uppercase()), expected);
        assert_eq!(match_room_type(text.trim()), expected);
    }
}
