use blueprint2mod::blueprint::{CropRegion, ElementType, ImagePoint};
use blueprint2mod::classify::{class_bucket, index_to_element_type, segment_patch};

#[test]
fn label_order() {
    let expected = [
        ElementType::Wall,
        ElementType::Door,
        ElementType::Window,
        ElementType::SlidingDoor,
        ElementType::Fireplace,
        ElementType::Closet,
        ElementType::Staircase,
        ElementType::Chimney,
        ElementType::Courtyard,
        ElementType::Unclassified,
    ];
    for (i, t) in expected.iter().enumerate() {
        assert_eq!(index_to_element_type(i), *t);
    }
    assert_eq!(index_to_element_type(42), ElementType::Unclassified);
}

#[test]
fn buckets_group_consecutive_classes() {
    assert_eq!(class_bucket(0, 1000), 0);
    assert_eq!(class_bucket(99, 1000), 0);
    assert_eq!(class_bucket(100, 1000), 1);
    assert_eq!(class_bucket(999, 1000), 9);
    assert_eq!(class_bucket(2, 3), 6);
    assert_eq!(class_bucket(4, 10), 4);
}

#[test]
fn patch_is_padded_and_clipped() {
    let pts = vec![ImagePoint { x: 20, y: 30 }, ImagePoint { x: 50, y: 30 }, ImagePoint { x: 35, y: 31 }];
    assert_eq!(segment_patch(&pts, 100, 100), Some(CropRegion { x: 12, y: 22, width: 46, height: 17 }));
    let edge = vec![ImagePoint { x: 2, y: 95 }, ImagePoint { x: 98, y: 99 }];
    assert_eq!(segment_patch(&edge, 100, 100), Some(CropRegion { x: 0, y: 87, width: 99, height: 12 }));
    assert_eq!(segment_patch(&vec![], 100, 100), None);
    assert_eq!(segment_patch(&vec![ImagePoint { x: 0, y: 0 }], 1, 1), None);
}
