use blueprint2mod::blueprint::{count_of_type, interior_wall_indices, BlueprintImage, CropRegion, ElementType, ImageFormat, ImageLoadError};

#[test]
fn load_rejects_unsupported_format() {
    let result = BlueprintImage::load("foo.bmp");
    assert!(result.is_err());
    let msg = result.unwrap_err().message();
    assert!(msg.contains("Unsupported image format"));
}

#[test]
fn load_rejects_no_extension() {
    let result = BlueprintImage::load("no_extension");
    assert!(result.is_err());
}

#[test]
fn load_accepts_jpg_extension() {
    let result = BlueprintImage::load("test.jpg");
    if let Err(e) = result {
        assert!(
            !e.message().contains("Unsupported image format"),
            "Should not fail on format for .jpg"
        );
    }
}

#[test]
fn load_accepts_png_extension() {
    let result = BlueprintImage::load("test.png");
    if let Err(e) = result {
        assert!(
            !e.message().contains("Unsupported image format"),
            "Should not fail on format for .png"
        );
    }
}

#[test]
fn load_rejects_uppercase_bmp() {
    assert!(BlueprintImage::load("blueprint.BMP").is_err());
}

#[test]
fn unsupported_extension_is_reported_lower_cased() {
    match BlueprintImage::load("plan.GIF") {
        Err(ImageLoadError::UnsupportedFormat { extension }) => assert_eq!(extension, "gif"),
        other => panic!("unexpected result {:?}", other),
    }
    match BlueprintImage::load("no_extension") {
        Err(ImageLoadError::UnsupportedFormat { extension }) => assert_eq!(extension, ""),
        other => panic!("unexpected result {:?}", other),
    }
}

#[test]
fn missing_file_with_good_extension_fails_to_open() {
    match BlueprintImage::load("definitely_missing_file.JPEG") {
        Err(ImageLoadError::OpenFailed { path, .. }) => assert_eq!(path, "definitely_missing_file.JPEG"),
        other => panic!("unexpected result {:?}", other),
    }
}

#[test]
fn unsupported_format_message_text() {
    let e = ImageLoadError::UnsupportedFormat { extension: "bmp".to_string() };
    assert_eq!(e.message(), "Unsupported image format '.bmp'. Only JPG and PNG are supported.");
    let e = ImageLoadError::OpenFailed { path: "a.png".to_string(), reason: "gone".to_string() };
    assert_eq!(e.message(), "Failed to open image 'a.png': gone");
    let e = ImageLoadError::ReloadFailed { path: "a.png".to_string(), reason: "gone".to_string() };
    assert_eq!(e.message(), "Failed to reload image 'a.png': gone");
}

#[test]
fn extension_table() {
    assert_eq!(ImageFormat::from_extension("jpg"), Some(ImageFormat::Jpeg));
    assert_eq!(ImageFormat::from_extension("jpeg"), Some(ImageFormat::Jpeg));
    assert_eq!(ImageFormat::from_extension("png"), Some(ImageFormat::Png));
    assert_eq!(ImageFormat::from_extension("PNG"), None);
    assert_eq!(ImageFormat::from_extension("bmp"), None);
}

#[test]
fn crop_from_drag_in_either_corner_order() {
    let a = CropRegion::from_drag((50, 40), (10, 90));
    assert_eq!(a, Some(CropRegion { x: 10, y: 40, width: 40, height: 50 }));
    let b = CropRegion::from_drag((10, 90), (50, 40));
    assert_eq!(a, b);
    assert_eq!(CropRegion::from_drag((5, 5), (5, 20)), None);
    assert_eq!(CropRegion::from_drag((5, 5), (20, 5)), None);
}

#[test]
fn reloading_a_missing_file_reports_the_path() {
    let img = BlueprintImage { path: "gone_missing.png".to_string(), width: 4, height: 4, format: ImageFormat::Png };
    match img.load_pixels() {
        Err(ImageLoadError::ReloadFailed { path, .. }) => assert_eq!(path, "gone_missing.png"),
        Err(e) => panic!("unexpected error {:?}", e),
        Ok(_) => panic!("a missing file cannot load"),
    }
}

#[test]
fn interior_room_is_bounded_by_interior_walls() {
    let types = vec![ElementType::Wall, ElementType::Door, ElementType::Wall, ElementType::Wall];
    let interior = vec![Some(true), Some(true), Some(false), Some(true)];
    assert_eq!(interior_wall_indices(&types, &interior), vec![0, 3]);
    assert!(interior_wall_indices(&vec![ElementType::Wall], &vec![None]).is_empty());
}

#[test]
fn counts_elements_per_type() {
    let types = vec![ElementType::Wall, ElementType::Door, ElementType::Wall];
    assert_eq!(count_of_type(&types, ElementType::Wall), 2);
    assert_eq!(count_of_type(&types, ElementType::Door), 1);
    assert_eq!(count_of_type(&types, ElementType::Window), 0);
}
