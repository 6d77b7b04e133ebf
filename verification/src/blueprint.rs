use vstd::prelude::*;
use vstd::string::*;
use crate::text::{ascii_lower, ascii_lower_chars, chars_of, string_from_chars, string_of};

verus! {

/// Unit of the real-world distance given for the scale reference.
#[derive(Debug, Clone, Copy, PartialEq, Eq, Structural)]
pub enum LengthUnit {
    Feet,
    Meters,
}

/// A point in image (pixel) space. Origin is top-left; x grows right, y grows down.
#[derive(Debug, Clone, Copy, PartialEq, Eq, Structural)]
pub struct ImagePoint {
    pub x: u32,
    pub y: u32,
}

/// Axis-aligned bounding box in image (pixel) coordinates.
#[derive(Debug, Clone, Copy, PartialEq, Eq, Structural)]
pub struct ImageBoundingBox {
    pub x: u32,
    pub y: u32,
    pub width: u32,
    pub height: u32,
}

/// Optional axis-aligned crop region applied to the blueprint image before any
/// processing; every later stage works on the sub-image bounded by it.
#[derive(Debug, Clone, Copy, PartialEq, Eq, Structural)]
pub struct CropRegion {
    pub x: u32,
    pub y: u32,
    pub width: u32,
    pub height: u32,
}

/// Architectural element classes recognised on a blueprint.
#[derive(Debug, Clone, Copy, PartialEq, Eq, Structural)]
pub enum ElementType {
    Wall,
    Door,
    Window,
    SlidingDoor,
    Fireplace,
    Closet,
    Staircase,
    Chimney,
    Courtyard,
    Unclassified,
}

/// Image container formats accepted for blueprints.
#[derive(Debug, Clone, Copy, PartialEq, Eq, Structural)]
pub enum ImageFormat {
    Jpeg,
    Png,
}

/// The smaller of two values.
pub open spec fn min_u32(a: u32, b: u32) -> u32 {
    if a <= b { a } else { b }
}

/// The larger of two values.
pub open spec fn max_u32(a: u32, b: u32) -> u32 {
    if a >= b { a } else { b }
}

/// The crop rectangle spanned by a drag from `start` to `end` (pixel coordinates);
/// `None` when the rectangle has zero width or zero height.
pub open spec fn spec_crop_from_drag(start: (u32, u32), end: (u32, u32)) -> Option<CropRegion> {
    let x = min_u32(start.0, end.0);
    let y = min_u32(start.1, end.1);
    let w = max_u32(start.0, end.0) - x;
    let h = max_u32(start.1, end.1) - y;
    if w > 0 && h > 0 {
        Some(CropRegion { x, y, width: w as u32, height: h as u32 })
    } else {
        None
    }
}

impl CropRegion {
    /// The crop region selected by dragging from `start` to `end` (either corner order).
    /// Returns `None` when the selection has no area.
    pub fn from_drag(start: (u32, u32), end: (u32, u32)) -> (r: Option<CropRegion>)
        ensures
            r == spec_crop_from_drag(start, end),
    {
        let x = if start.0 <= end.0 { start.0 } else { end.0 };
        let y = if start.1 <= end.1 { start.1 } else { end.1 };
        let x_max = if start.0 >= end.0 { start.0 } else { end.0 };
        let y_max = if start.1 >= end.1 { start.1 } else { end.1 };
        let width = x_max - x;
        let height = y_max - y;
        if width > 0 && height > 0 {
            Some(CropRegion { x, y, width, height })
        } else {
            None
        }
    }
}

/// The image format for a lower-case file extension: `jpg`/`jpeg` are JPEG, `png` is PNG.
pub open spec fn spec_format_for_extension(ext: Seq<char>) -> Option<ImageFormat> {
    if ext == "jpg"@ || ext == "jpeg"@ {
        Some(ImageFormat::Jpeg)
    } else if ext == "png"@ {
        Some(ImageFormat::Png)
    } else {
        None
    }
}

impl ImageFormat {
    /// The format named by a lower-case file extension, if it is a supported one.
    pub fn from_extension(ext: &str) -> (r: Option<ImageFormat>)
        ensures
            r == spec_format_for_extension(ext@),
    {
        let e = chars_of(ext);
        let jpg = chars_of("jpg");
        let jpeg = chars_of("jpeg");
        let png = chars_of("png");
        if crate::text::chars_equal(&e, &jpg) || crate::text::chars_equal(&e, &jpeg) {
            Some(ImageFormat::Jpeg)
        } else if crate::text::chars_equal(&e, &png) {
            Some(ImageFormat::Png)
        } else {
            None
        }
    }
}

/// The extension of the final component of a file path, as `std::path::Path::extension`
/// finds it.
pub uninterp spec fn spec_path_extension(path: Seq<char>) -> Option<Seq<char>>;

/// Extension of the file named by `path` (std `Path::extension`). The result is
/// `spec_path_extension` of the path; a path given as `&str` is valid UTF-8, so the
/// extension converts to a string whenever it exists.
#[verifier::external_body]
fn path_extension(path: &str) -> (r: Option<String>)
    ensures
        match r {
            Some(e) => spec_path_extension(path@) == Some(e@),
            None => spec_path_extension(path@) is None,
        },
{
    std::path::Path::new(path).extension().and_then(|e| e.to_str()).map(|e| e.to_string())
}

/// The lower-cased extension of `path`, empty when it has none.
pub open spec fn spec_lower_extension(path: Seq<char>) -> Seq<char> {
    match spec_path_extension(path) {
        Some(e) => ascii_lower(e),
        None => Seq::empty(),
    }
}

/// Error raised when opening a blueprint image.
#[derive(Debug, Clone, PartialEq, Eq)]
pub enum ImageLoadError {
    /// The file extension (lower-cased) is not one of `jpg`, `jpeg`, `png`.
    UnsupportedFormat { extension: String },
    /// The image file could not be opened or decoded.
    OpenFailed { path: String, reason: String },
    /// The image file could not be read again to obtain its pixels.
    ReloadFailed { path: String, reason: String },
}

impl ImageLoadError {
    /// Human-readable description of the error.
    pub fn message(&self) -> (r: String)
        ensures
            match self {
                ImageLoadError::UnsupportedFormat { extension } => r@ == "Unsupported image format '."@
                    + extension@ + "'. Only JPG and PNG are supported."@,
                ImageLoadError::OpenFailed { path, reason } => r@ == "Failed to open image '"@
                    + path@ + "': "@ + reason@,
                ImageLoadError::ReloadFailed { path, reason } => r@ == "Failed to reload image '"@
                    + path@ + "': "@ + reason@,
            },
    {
        match self {
            ImageLoadError::UnsupportedFormat { extension } => {
                let mut m = string_of("Unsupported image format '.");
                m.append(extension.as_str());
                m.append("'. Only JPG and PNG are supported.");
                m
            },
            ImageLoadError::OpenFailed { path, reason } => {
                let mut m = string_of("Failed to open image '");
                m.append(path.as_str());
                m.append("': ");
                m.append(reason.as_str());
                m
            },
            ImageLoadError::ReloadFailed { path, reason } => {
                let mut m = string_of("Failed to reload image '");
                m.append(path.as_str());
                m.append("': ");
                m.append(reason.as_str());
                m
            },
        }
    }
}

/// Decoded raster image of the `image` crate.
#[verifier::external_type_specification]
#[verifier::external_body]
pub struct ExDynamicImage(image::DynamicImage);

/// Opens and decodes the image file at `path` (`image::open`), or reports the decoder's
/// error text. What comes back depends on the file on disk, so nothing is stated of it.
#[verifier::external_body]
fn open_image(path: &str) -> (r: Result<image::DynamicImage, String>)
{
    image::open(path).map_err(|e| e.to_string())
}

/// Width and height of a decoded image (`GenericImageView::dimensions`). The image is
/// opaque here, so nothing is stated of the result.
#[verifier::external_body]
fn image_dimensions(img: &image::DynamicImage) -> (r: (u32, u32))
{
    image::GenericImageView::dimensions(img)
}

/// Metadata for the loaded blueprint image. Raw pixel data is not stored here; it is
/// loaded on demand with `load_pixels`.
#[derive(Debug, Clone, PartialEq, Eq)]
pub struct BlueprintImage {
    pub path: String,
    pub width: u32,
    pub height: u32,
    pub format: ImageFormat,
}

impl BlueprintImage {
    /// Open the image at `path`, validate its format and return its metadata.
    ///
    /// Only `.jpg`, `.jpeg` and `.png` (in any letter case) are accepted; the format is
    /// checked before the file is touched.
    pub fn load(path: &str) -> (r: Result<BlueprintImage, ImageLoadError>)
        ensures
            spec_format_for_extension(spec_lower_extension(path@)) is None <==> r matches Err(
                ImageLoadError::UnsupportedFormat { .. },
            ),
            r matches Err(ImageLoadError::UnsupportedFormat { extension }) ==> extension@
                == spec_lower_extension(path@),
            r matches Ok(img) ==> img.path@ == path@ && Some(img.format)
                == spec_format_for_extension(spec_lower_extension(path@)),
            r matches Err(ImageLoadError::OpenFailed { path: p, .. }) ==> p@ == path@,
            !(r matches Err(ImageLoadError::ReloadFailed { .. })),
    {
        let ext_chars = match path_extension(path) {
            Some(e) => chars_of(e.as_str()),
            None => Vec::new(),
        };
        let lower = ascii_lower_chars(&ext_chars);
        let lower_str = string_from_chars(&lower);
        proof {
            if spec_path_extension(path@) is None {
                assert(ascii_lower(ext_chars@) =~= Seq::<char>::empty());
            }
        }
        let format = match ImageFormat::from_extension(lower_str.as_str()) {
            Some(f) => f,
            None => {
                return Err(ImageLoadError::UnsupportedFormat { extension: lower_str });
            },
        };
        match open_image(path) {
            Ok(img) => {
                let (width, height) = image_dimensions(&img);
                Ok(BlueprintImage { path: string_of(path), width, height, format })
            },
            Err(reason) => Err(ImageLoadError::OpenFailed { path: string_of(path), reason }),
        }
    }

    /// Load the raw pixel data from disk (used by the detection pipeline; not cached).
    pub fn load_pixels(&self) -> (r: Result<image::DynamicImage, ImageLoadError>)
        ensures
            r matches Err(e) ==> e matches ImageLoadError::ReloadFailed { path, .. } && path@
                == self.path@,
    {
        match open_image(self.path.as_str()) {
            Ok(img) => Ok(img),
            Err(reason) => Err(
                ImageLoadError::ReloadFailed { path: string_of(self.path.as_str()), reason },
            ),
        }
    }
}

/// Element `k` bounds the interior room: it is a wall marked as interior.
pub open spec fn is_interior_wall(types: Seq<ElementType>, interior: Seq<Option<bool>>, k: int) -> bool {
    types[k] == ElementType::Wall && interior[k] == Some(true)
}

/// Indices of the walls marked interior, in element order: the boundary of the
/// interior room (there is no room when there are none).
pub open spec fn spec_interior_walls(types: Seq<ElementType>, interior: Seq<Option<bool>>) -> Seq<usize> {
    Seq::new(types.len(), |k: int| k as usize).filter(|k: usize| is_interior_wall(types, interior, k as int))
}

/// Indices of the interior walls among the elements, in order.
pub fn interior_wall_indices(types: &Vec<ElementType>, interior: &Vec<Option<bool>>) -> (r: Vec<usize>)
    requires
        interior@.len() == types@.len(),
    ensures
        r@ == spec_interior_walls(types@, interior@),
{
    let n = types.len();
    let ghost idx = Seq::new(n as nat, |k: int| k as usize);
    let ghost pred = |k: usize| is_interior_wall(types@, interior@, k as int);
    let mut out: Vec<usize> = Vec::new();
    let mut k: usize = 0;
    while k < n
        invariant
            n == types@.len(),
            interior@.len() == n,
            k <= n,
            idx == Seq::new(n as nat, |k: int| k as usize),
            pred == (|k: usize| is_interior_wall(types@, interior@, k as int)),
            out@ == idx.take(k as int).filter(pred),
        decreases n - k,
    {
        proof {
            crate::tracing::lemma_filter_step(idx, pred, k as int);
        }
        let wall = match types[k] {
            ElementType::Wall => true,
            _ => false,
        };
        let inside = match interior[k] {
            Some(b) => b,
            None => false,
        };
        if wall && inside {
            out.push(k);
        }
        k = k + 1;
    }
    assert(idx.take(n as int) == idx);
    out
}

/// Number of entries of `types` equal to `t`.
pub open spec fn type_count(types: Seq<ElementType>, t: ElementType) -> nat
    decreases types.len(),
{
    if types.len() == 0 {
        0
    } else {
        type_count(types.drop_last(), t) + if types.last() == t { 1nat } else { 0nat }
    }
}

/// How many elements have type `t` (the per-type counts of the detection summary).
pub fn count_of_type(types: &Vec<ElementType>, t: ElementType) -> (r: usize)
    ensures
        r == type_count(types@, t),
{
    let mut n: usize = 0;
    let mut k: usize = 0;
    while k < types.len()
        invariant
            k <= types@.len(),
            n == type_count(types@.take(k as int), t),
            n <= k,
        decreases types@.len() - k,
    {
        assert(types@.take(k as int + 1).drop_last() == types@.take(k as int));
        if types[k] == t {
            n = n + 1;
        }
        k = k + 1;
    }
    assert(types@.take(types@.len() as int) == types@);
    n
}

} // verus!
