use vstd::prelude::*;
use crate::blueprint::ImageBoundingBox;
use crate::raster::{GrayRaster, GrayView};
use crate::text::{
    ascii_lower, ascii_upper, chars_equal, chars_of, contains_chars, is_ascii_text, lemma_ascii_case_folding,
    lemma_trimmed_ascii_upper, lemma_trimmed_idempotent, occurs_in, trim_chars, trimmed,
};

verus! {

/// Room types recognised from OCR labels.
#[derive(Debug, Clone, Copy, PartialEq, Eq, Structural)]
pub enum KnownRoomType {
    Bedroom,
    Kitchen,
    Bathroom,
    LivingRoom,
    DiningRoom,
    Garage,
    Hallway,
    Study,
    Laundry,
}

/// Room type named by an upper-case, trimmed label. Keywords anywhere in the label win
/// first (LIVING, DINING, BEDROOM / BED RM / BED ROOM, BATHROOM / BATH ROOM, LAUNDRY);
/// otherwise the whole label must be one of the known short forms.
pub open spec fn spec_room_type(u: Seq<char>) -> Option<KnownRoomType> {
    if occurs_in(u, "LIVING"@) {
        Some(KnownRoomType::LivingRoom)
    } else if occurs_in(u, "DINING"@) {
        Some(KnownRoomType::DiningRoom)
    } else if occurs_in(u, "BEDROOM"@) || occurs_in(u, "BED RM"@) || occurs_in(u, "BED ROOM"@) {
        Some(KnownRoomType::Bedroom)
    } else if occurs_in(u, "BATHROOM"@) || occurs_in(u, "BATH ROOM"@) {
        Some(KnownRoomType::Bathroom)
    } else if occurs_in(u, "LAUNDRY"@) {
        Some(KnownRoomType::Laundry)
    } else if u == "BEDROOM"@ || u == "BED"@ || u == "MASTER BED"@ || u == "MASTER BEDROOM"@ {
        Some(KnownRoomType::Bedroom)
    } else if u == "KITCHEN"@ || u == "KIT"@ || u == "KITCH"@ {
        Some(KnownRoomType::Kitchen)
    } else if u == "BATH"@ || u == "RESTROOM"@ || u == "WC"@ || u == "TOILET"@ {
        Some(KnownRoomType::Bathroom)
    } else if u == "GARAGE"@ || u == "CAR GARAGE"@ {
        Some(KnownRoomType::Garage)
    } else if u == "HALLWAY"@ || u == "HALL"@ || u == "CORRIDOR"@ {
        Some(KnownRoomType::Hallway)
    } else if u == "STUDY"@ || u == "OFFICE"@ || u == "DEN"@ {
        Some(KnownRoomType::Study)
    } else if u == "UTILITY"@ {
        Some(KnownRoomType::Laundry)
    } else {
        None
    }
}

/// Upper-case mapping of a string as `str::to_uppercase` performs it (Unicode case mapping).
pub uninterp spec fn spec_to_uppercase(s: Seq<char>) -> Seq<char>;

/// Upper-cases `s` with `str::to_uppercase`; the result is `spec_to_uppercase` of the
/// input. On ASCII text the Unicode mapping is the ASCII one (`a..=z` to `A..=Z`, all
/// other characters kept); the full Unicode case mapping is not restated here.
#[verifier::external_body]
fn to_uppercase(s: &str) -> (r: String)
    ensures
        r@ == spec_to_uppercase(s@),
        is_ascii_text(s@) ==> r@ == ascii_upper(s@),
{
    s.to_uppercase()
}

fn has(hay: &Vec<char>, word: &str) -> (r: bool)
    ensures
        r == occurs_in(hay@, word@),
{
    let w = chars_of(word);
    contains_chars(hay, &w)
}

fn is(u: &Vec<char>, word: &str) -> (r: bool)
    ensures
        r == (u@ == word@),
{
    let w = chars_of(word);
    chars_equal(u, &w)
}

/// Room type named by an already upper-cased label; surrounding white space is ignored.
pub fn room_type_from_upper(upper: &str) -> (r: Option<KnownRoomType>)
    ensures
        r == spec_room_type(trimmed(upper@)),
{
    let all = chars_of(upper);
    let u = trim_chars(&all);
    if has(&u, "LIVING") {
        return Some(KnownRoomType::LivingRoom);
    }
    if has(&u, "DINING") {
        return Some(KnownRoomType::DiningRoom);
    }
    if has(&u, "BEDROOM") || has(&u, "BED RM") || has(&u, "BED ROOM") {
        return Some(KnownRoomType::Bedroom);
    }
    if has(&u, "BATHROOM") || has(&u, "BATH ROOM") {
        return Some(KnownRoomType::Bathroom);
    }
    if has(&u, "LAUNDRY") {
        return Some(KnownRoomType::Laundry);
    }
    if is(&u, "BEDROOM") || is(&u, "BED") || is(&u, "MASTER BED") || is(&u, "MASTER BEDROOM") {
        Some(KnownRoomType::Bedroom)
    } else if is(&u, "KITCHEN") || is(&u, "KIT") || is(&u, "KITCH") {
        Some(KnownRoomType::Kitchen)
    } else if is(&u, "BATH") || is(&u, "RESTROOM") || is(&u, "WC") || is(&u, "TOILET") {
        Some(KnownRoomType::Bathroom)
    } else if is(&u, "GARAGE") || is(&u, "CAR GARAGE") {
        Some(KnownRoomType::Garage)
    } else if is(&u, "HALLWAY") || is(&u, "HALL") || is(&u, "CORRIDOR") {
        Some(KnownRoomType::Hallway)
    } else if is(&u, "STUDY") || is(&u, "OFFICE") || is(&u, "DEN") {
        Some(KnownRoomType::Study)
    } else if is(&u, "UTILITY") {
        Some(KnownRoomType::Laundry)
    } else {
        None
    }
}

/// Match text against the known room types, ignoring letter case and surrounding white
/// space. Handles full labels ("LIVING ROOM") and the single-word fragments OCR produces
/// from them ("LIVING", "DINING").
pub fn match_room_type(text: &str) -> (r: Option<KnownRoomType>)
    ensures
        r == spec_room_type(trimmed(spec_to_uppercase(text@))),
        is_ascii_text(text@) ==> r == ascii_room_label(text@),
{
    let upper = to_uppercase(text);
    room_type_from_upper(upper.as_str())
}

/// Room type of an ASCII label: the label upper-cased and trimmed, then matched.
pub open spec fn ascii_room_label(t: Seq<char>) -> Option<KnownRoomType> {
    spec_room_type(trimmed(ascii_upper(t)))
}

/// Room labels ignore letter case and surrounding white space: an ASCII label, its
/// lower-case and upper-case forms and its trimmed form (all ASCII again) name the
/// same room type.
pub proof fn lemma_room_label_ignores_case_and_spaces(t: Seq<char>)
    requires
        is_ascii_text(t),
    ensures
        is_ascii_text(ascii_lower(t)),
        is_ascii_text(ascii_upper(t)),
        is_ascii_text(trimmed(t)),
        ascii_room_label(ascii_lower(t)) == ascii_room_label(t),
        ascii_room_label(ascii_upper(t)) == ascii_room_label(t),
        ascii_room_label(trimmed(t)) == ascii_room_label(t),
{
    lemma_ascii_case_folding(t);
    lemma_trimmed_ascii_upper(t);
    lemma_trimmed_ascii_upper(trimmed(t));
    lemma_trimmed_idempotent(ascii_upper(t));
    lemma_trimmed_idempotent(t);
}

/// Classification of one OCR text item, before any dimension value is attached.
#[derive(Debug, Clone, Copy, PartialEq, Eq, Structural)]
pub enum AnnotationKind {
    RoomLabel(KnownRoomType),
    /// Text recognised but not a known room type.
    RoomLabelUnknown,
    /// Text that reads as a dimension value.
    DimensionValue,
    /// OCR confidence too low, or text too short to mean anything.
    Unreadable,
}

/// The classification rule for an OCR item: unreadable below the confidence cut-off,
/// then a dimension if it parses as one, then a known room label, then any other text of
/// at least three bytes is an unknown label, and shorter text is unreadable.
pub open spec fn spec_annotation_kind(readable: bool, is_dimension: bool, text: &str) -> AnnotationKind {
    if !readable {
        AnnotationKind::Unreadable
    } else if is_dimension {
        AnnotationKind::DimensionValue
    } else if let Some(rt) = spec_room_type(trimmed(spec_to_uppercase(text@))) {
        AnnotationKind::RoomLabel(rt)
    } else if text.len() >= 3 {
        AnnotationKind::RoomLabelUnknown
    } else {
        AnnotationKind::Unreadable
    }
}

/// Classify an OCR item. `readable` tells whether its confidence reached the cut-off and
/// `is_dimension` whether its text parses as a dimension value.
pub fn annotation_kind(readable: bool, is_dimension: bool, text: &str) -> (r: AnnotationKind)
    ensures
        r == spec_annotation_kind(readable, is_dimension, text),
{
    if !readable {
        AnnotationKind::Unreadable
    } else if is_dimension {
        AnnotationKind::DimensionValue
    } else if let Some(rt) = match_room_type(text) {
        AnnotationKind::RoomLabel(rt)
    } else if text.len() >= 3 {
        AnnotationKind::RoomLabelUnknown
    } else {
        AnnotationKind::Unreadable
    }
}

/// Word bounding box as the OCR engine reports it (signed pixel geometry).
#[derive(Debug, Clone, Copy, PartialEq, Eq, Structural)]
pub struct WordBox {
    pub x: i32,
    pub y: i32,
    pub w: i32,
    pub h: i32,
}

/// One recognised word with its pixel bounds.
#[derive(Debug, Clone, PartialEq, Eq)]
pub struct OcrWord {
    pub text: String,
    pub bounds: ImageBoundingBox,
}

/// `v`, with negative values raised to zero.
pub open spec fn clamp_non_negative(v: i32) -> u32 {
    if v < 0 { 0 } else { v as u32 }
}

/// Pixel bounds of an OCR word box, negative coordinates and sizes clamped to zero.
pub open spec fn spec_box_bounds(b: WordBox) -> ImageBoundingBox {
    ImageBoundingBox {
        x: clamp_non_negative(b.x),
        y: clamp_non_negative(b.y),
        width: clamp_non_negative(b.w),
        height: clamp_non_negative(b.h),
    }
}

/// Bounds of word `i`: its own box when the engine reported one for it, otherwise the
/// whole image.
pub open spec fn spec_word_bounds(boxes: Option<Seq<WordBox>>, i: int, width: u32, height: u32) -> ImageBoundingBox {
    match boxes {
        Some(b) => if i < b.len() {
            spec_box_bounds(b[i])
        } else {
            ImageBoundingBox { x: 0, y: 0, width, height }
        },
        None => ImageBoundingBox { x: 0, y: 0, width, height },
    }
}

fn clamp_box(b: WordBox) -> (r: ImageBoundingBox)
    ensures
        r == spec_box_bounds(b),
{
    ImageBoundingBox {
        x: if b.x < 0 { 0 } else { b.x as u32 },
        y: if b.y < 0 { 0 } else { b.y as u32 },
        width: if b.w < 0 { 0 } else { b.w as u32 },
        height: if b.h < 0 { 0 } else { b.h as u32 },
    }
}

/// The reported word boxes as a sequence.
pub open spec fn boxes_view(boxes: Option<Vec<WordBox>>) -> Option<Seq<WordBox>> {
    match boxes {
        Some(b) => Some(b@),
        None => None,
    }
}

/// Pairs the words of the recognised text with the engine's word boxes, in order.
/// Words beyond the last box, and all words when no boxes were reported, get the bounds
/// of the whole `width` x `height` image.
pub fn align_words(full_text: &str, boxes: Option<Vec<WordBox>>, width: u32, height: u32) -> (r: Vec<OcrWord>)
    ensures
        r@.len() == crate::text::words_of(full_text@).len(),
        forall|i: int| 0 <= i < r@.len() ==> #[trigger] r@[i].text@ == crate::text::words_of(full_text@)[i]
            && r@[i].bounds == spec_word_bounds(
                boxes_view(boxes),
                i,
                width,
                height,
            ),
{
    let words = crate::text::split_words(full_text);
    let mut out: Vec<OcrWord> = Vec::new();
    let mut i: usize = 0;
    while i < words.len()
        invariant
            i <= words.len(),
            words@.len() == crate::text::words_of(full_text@).len(),
            forall|k: int| 0 <= k < words@.len() ==> #[trigger] words@[k]@ == crate::text::words_of(full_text@)[k],
            out@.len() == i,
            forall|k: int| 0 <= k < i ==> #[trigger] out@[k].text@ == crate::text::words_of(full_text@)[k]
                && out@[k].bounds == spec_word_bounds(boxes_view(boxes), k, width, height),
        decreases words.len() - i,
    {
        let bounds = match &boxes {
            Some(b) => if i < b.len() {
                clamp_box(b[i])
            } else {
                ImageBoundingBox { x: 0, y: 0, width, height }
            },
            None => ImageBoundingBox { x: 0, y: 0, width, height },
        };
        let text = crate::text::string_of(words[i].as_str());
        out.push(OcrWord { text, bounds });
        i += 1;
    }
    out
}

/// Wraps the Tesseract OCR engine; recognition itself runs in the application.
#[derive(Debug, Clone, Copy, PartialEq, Eq, Structural)]
pub struct OcrExtractor;

impl OcrExtractor {
    /// The extractor (it holds no state).
    pub fn new() -> (r: Self)
        ensures
            r == OcrExtractor,
    {
        OcrExtractor
    }
}

impl Default for OcrExtractor {
    fn default() -> (r: Self)
        ensures
            r == OcrExtractor,
    {
        OcrExtractor
    }
}

/// Grey level above which a pixel becomes white before recognition.
pub const OCR_THRESHOLD: u8 = 128;

/// The raster binarised for recognition: pixels brighter than `OCR_THRESHOLD` become
/// 255, all others 0.
pub open spec fn binarized(g: GrayView) -> GrayView {
    (g.0, g.1, g.2.map_values(|p: u8| if p > OCR_THRESHOLD { 255u8 } else { 0u8 }))
}

/// Calls `imageproc::contrast::threshold` with `ThresholdType::Binary`, which maps each
/// pixel above the threshold to 255 and every other pixel to 0.
#[verifier::external_body]
fn threshold_binary(gray: &GrayRaster, level: u8) -> (r: GrayRaster)
    requires
        gray.wf(),
    ensures
        r@ == (gray@.0, gray@.1, gray@.2.map_values(|p: u8| if p > level { 255u8 } else { 0u8 })),
{
    let buf = image::GrayImage::from_raw(gray.width, gray.height, gray.data.clone()).expect("raster size");
    let out = imageproc::contrast::threshold(&buf, level, imageproc::contrast::ThresholdType::Binary);
    GrayRaster { width: gray.width, height: gray.height, data: out.into_raw() }
}

/// Prepares a grey rendering of the blueprint for text recognition by binarising it.
pub fn binarize_for_ocr(gray: &GrayRaster) -> (r: GrayRaster)
    requires
        gray.wf(),
    ensures
        r@ == binarized(gray@),
        r.wf(),
{
    let r = threshold_binary(gray, OCR_THRESHOLD);
    assert(r@.2 =~= binarized(gray@).2);
    r
}


/// The short room labels of the room table with the room type each one names.
pub open spec fn room_short_forms() -> Seq<(Seq<char>, KnownRoomType)> {
    seq![
        ("BEDROOM"@, KnownRoomType::Bedroom),
        ("BED"@, KnownRoomType::Bedroom),
        ("MASTER BED"@, KnownRoomType::Bedroom),
        ("MASTER BEDROOM"@, KnownRoomType::Bedroom),
        ("KITCHEN"@, KnownRoomType::Kitchen),
        ("KIT"@, KnownRoomType::Kitchen),
        ("KITCH"@, KnownRoomType::Kitchen),
        ("BATH"@, KnownRoomType::Bathroom),
        ("RESTROOM"@, KnownRoomType::Bathroom),
        ("WC"@, KnownRoomType::Bathroom),
        ("TOILET"@, KnownRoomType::Bathroom),
        ("GARAGE"@, KnownRoomType::Garage),
        ("CAR GARAGE"@, KnownRoomType::Garage),
        ("HALLWAY"@, KnownRoomType::Hallway),
        ("HALL"@, KnownRoomType::Hallway),
        ("CORRIDOR"@, KnownRoomType::Hallway),
        ("STUDY"@, KnownRoomType::Study),
        ("OFFICE"@, KnownRoomType::Study),
        ("DEN"@, KnownRoomType::Study),
        ("UTILITY"@, KnownRoomType::Laundry),
    ]
}

/// No room keyword occurs in `u` when no `L`, `D` or `B` starts a stretch of six
/// characters of `u` (every keyword is at least six characters long and starts with one
/// of these letters).
proof fn lemma_no_keyword(u: Seq<char>)
    requires
        forall|i: int| 0 <= i && i + 6 <= u.len() ==> u[i] != 'L' && u[i] != 'D' && u[i] != 'B',
    ensures

        !occurs_in(u, "LIVING"@),
        !occurs_in(u, "DINING"@),
        !occurs_in(u, "BEDROOM"@),
        !occurs_in(u, "BED RM"@),
        !occurs_in(u, "BED ROOM"@),
        !occurs_in(u, "BATHROOM"@),
        !occurs_in(u, "BATH ROOM"@),
        !occurs_in(u, "LAUNDRY"@),
{
    reveal_strlit("LIVING");
    reveal_strlit("DINING");
    reveal_strlit("BEDROOM");
    reveal_strlit("BED RM");
    reveal_strlit("BED ROOM");
    reveal_strlit("BATHROOM");
    reveal_strlit("BATH ROOM");
    reveal_strlit("LAUNDRY");
    lemma_keyword_starts(u, "LIVING"@);
    lemma_keyword_starts(u, "DINING"@);
    lemma_keyword_starts(u, "BEDROOM"@);
    lemma_keyword_starts(u, "BED RM"@);
    lemma_keyword_starts(u, "BED ROOM"@);
    lemma_keyword_starts(u, "BATHROOM"@);
    lemma_keyword_starts(u, "BATH ROOM"@);
    lemma_keyword_starts(u, "LAUNDRY"@);
}

/// Where `needle` occurs in `hay`, its first character stands in `hay` at the start of the
/// occurrence.
proof fn lemma_keyword_starts(hay: Seq<char>, needle: Seq<char>)
    requires
        needle.len() > 0,
    ensures
        occurs_in(hay, needle) ==> exists|i: int|
            0 <= i && i + needle.len() <= hay.len() && #[trigger] hay[i] == needle[0],
{
    if occurs_in(hay, needle) {
        let i = choose|i: int| 0 <= i && i + needle.len() <= hay.len() && #[trigger] hay.subrange(i, i + needle.len()) == needle;
        assert(hay.subrange(i, i + needle.len())[0] == hay[i]);
    }
}

/// Neither `LIVING` nor `DINING` occurs in `u` when no `L` or `D` starts a stretch of six
/// characters of `u`.
proof fn lemma_no_living_or_dining(u: Seq<char>)
    requires
        forall|i: int| 0 <= i && i + 6 <= u.len() ==> u[i] != 'L' && u[i] != 'D',
    ensures
        !occurs_in(u, "LIVING"@),
        !occurs_in(u, "DINING"@),
{
    reveal_strlit("LIVING");
    reveal_strlit("DINING");
    lemma_keyword_starts(u, "LIVING"@);
    lemma_keyword_starts(u, "DINING"@);
}

/// Every short label of the room table is recognised as its room type, whatever its
/// letter case and surrounding white space: any text whose upper-cased, trimmed form is
/// a short label names that label's room type.
pub proof fn lemma_room_short_forms_recognised(t: Seq<char>, k: int)
    requires
        0 <= k < room_short_forms().len(),
        trimmed(ascii_upper(t)) == room_short_forms()[k].0,
    ensures
        ascii_room_label(t) == Some(room_short_forms()[k].1),
{
    reveal_strlit("BEDROOM");
    reveal_strlit("BED");
    reveal_strlit("MASTER BED");
    reveal_strlit("MASTER BEDROOM");
    reveal_strlit("KITCHEN");
    reveal_strlit("KIT");
    reveal_strlit("KITCH");
    reveal_strlit("BATH");
    reveal_strlit("RESTROOM");
    reveal_strlit("WC");
    reveal_strlit("TOILET");
    reveal_strlit("GARAGE");
    reveal_strlit("CAR GARAGE");
    reveal_strlit("HALLWAY");
    reveal_strlit("HALL");
    reveal_strlit("CORRIDOR");
    reveal_strlit("STUDY");
    reveal_strlit("OFFICE");
    reveal_strlit("DEN");
    reveal_strlit("UTILITY");
    let u = trimmed(ascii_upper(t));
    if k == 0 {
        reveal_strlit("BEDROOM");
        assert(u == "BEDROOM"@);
        lemma_no_living_or_dining(u);
        let at: int = 0;
        assert(u.subrange(at, at + 7) =~= "BEDROOM"@);
    } else if k == 1 {
        reveal_strlit("BED");
        assert(u == "BED"@);
        lemma_no_keyword(u);
    } else if k == 2 {
        reveal_strlit("MASTER BED");
        assert(u == "MASTER BED"@);
        lemma_no_keyword(u);
    } else if k == 3 {
        reveal_strlit("MASTER BEDROOM");
        reveal_strlit("BEDROOM");
        assert(u == "MASTER BEDROOM"@);
        lemma_no_living_or_dining(u);
        let at: int = 7;
        assert(u.subrange(at, at + 7) =~= "BEDROOM"@);
    } else if k == 4 {
        reveal_strlit("KITCHEN");
        assert(u == "KITCHEN"@);
        assert(u[0] != "BEDROOM"@[0]);
        lemma_no_keyword(u);
    } else if k == 5 {
        reveal_strlit("KIT");
        assert(u == "KIT"@);
        assert(u[0] != "BED"@[0]);
        lemma_no_keyword(u);
    } else if k == 6 {
        reveal_strlit("KITCH");
        assert(u == "KITCH"@);
        lemma_no_keyword(u);
    } else if k == 7 {
        reveal_strlit("BATH");
        assert(u == "BATH"@);
        lemma_no_keyword(u);
    } else if k == 8 {
        reveal_strlit("RESTROOM");
        assert(u == "RESTROOM"@);
        lemma_no_keyword(u);
    } else if k == 9 {
        reveal_strlit("WC");
        assert(u == "WC"@);
        lemma_no_keyword(u);
    } else if k == 10 {
        reveal_strlit("TOILET");
        assert(u == "TOILET"@);
        lemma_no_keyword(u);
    } else if k == 11 {
        reveal_strlit("GARAGE");
        assert(u == "GARAGE"@);
        assert(u[0] != "TOILET"@[0]);
        lemma_no_keyword(u);
    } else if k == 12 {
        reveal_strlit("CAR GARAGE");
        assert(u == "CAR GARAGE"@);
        assert(u[0] != "MASTER BED"@[0]);
        lemma_no_keyword(u);
    } else if k == 13 {
        reveal_strlit("HALLWAY");
        assert(u == "HALLWAY"@);
        assert(u[0] != "BEDROOM"@[0]);
        assert(u[0] != "KITCHEN"@[0]);
        lemma_no_keyword(u);
    } else if k == 14 {
        reveal_strlit("HALL");
        assert(u == "HALL"@);
        assert(u[0] != "BATH"@[0]);
        lemma_no_keyword(u);
    } else if k == 15 {
        reveal_strlit("CORRIDOR");
        assert(u == "CORRIDOR"@);
        assert(u[0] != "RESTROOM"@[0]);
        lemma_no_keyword(u);
    } else if k == 16 {
        reveal_strlit("STUDY");
        assert(u == "STUDY"@);
        assert(u[0] != "KITCH"@[0]);
        lemma_no_keyword(u);
    } else if k == 17 {
        reveal_strlit("OFFICE");
        assert(u == "OFFICE"@);
        assert(u[0] != "TOILET"@[0]);
        assert(u[0] != "GARAGE"@[0]);
        lemma_no_keyword(u);
    } else if k == 18 {
        reveal_strlit("DEN");
        assert(u == "DEN"@);
        assert(u[0] != "BED"@[0]);
        assert(u[0] != "KIT"@[0]);
        lemma_no_keyword(u);
    } else if k == 19 {
        reveal_strlit("UTILITY");
        assert(u == "UTILITY"@);
        assert(u[0] != "BEDROOM"@[0]);
        assert(u[0] != "KITCHEN"@[0]);
        assert(u[0] != "HALLWAY"@[0]);
        lemma_no_keyword(u);
    }
}

/// The room keywords, in the order in which they are looked for anywhere in a label,
/// with the room type each one names.
pub open spec fn room_keywords() -> Seq<(Seq<char>, KnownRoomType)> {
    seq![
        ("LIVING"@, KnownRoomType::LivingRoom),
        ("DINING"@, KnownRoomType::DiningRoom),
        ("BEDROOM"@, KnownRoomType::Bedroom),
        ("BED RM"@, KnownRoomType::Bedroom),
        ("BED ROOM"@, KnownRoomType::Bedroom),
        ("BATHROOM"@, KnownRoomType::Bathroom),
        ("BATH ROOM"@, KnownRoomType::Bathroom),
        ("LAUNDRY"@, KnownRoomType::Laundry),
    ]
}

/// A keyword anywhere in a label decides its room type, whatever else the label says
/// and whatever its letter case or surrounding white space, unless an earlier keyword
/// of the list also occurs in it.
pub proof fn lemma_room_keywords_win(t: Seq<char>, k: int)
    requires
        0 <= k < room_keywords().len(),
        occurs_in(trimmed(ascii_upper(t)), room_keywords()[k].0),
        forall|e: int| 0 <= e < k ==> !occurs_in(trimmed(ascii_upper(t)), #[trigger] room_keywords()[e].0),
    ensures
        ascii_room_label(t) == Some(room_keywords()[k].1),
{
    let u = trimmed(ascii_upper(t));
    let kw = room_keywords();
    assert(kw[0].0 == "LIVING"@);
    assert(kw[1].0 == "DINING"@);
    assert(kw[2].0 == "BEDROOM"@);
    assert(kw[3].0 == "BED RM"@);
    assert(kw[4].0 == "BED ROOM"@);
    assert(kw[5].0 == "BATHROOM"@);
    assert(kw[6].0 == "BATH ROOM"@);
}

} // verus!
