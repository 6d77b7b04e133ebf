use vstd::prelude::*;
use crate::blueprint::{CropRegion, ElementType, ImagePoint};

verus! {

/// Number of element classes the classifier distinguishes.
pub const N_CLASSES: usize = 10;

/// Element type of classifier output index `idx`, in training label order:
/// 0 wall, 1 door, 2 window, 3 sliding door, 4 fireplace, 5 closet, 6 staircase,
/// 7 chimney, 8 courtyard; every other index is unclassified.
pub open spec fn spec_index_to_element_type(idx: int) -> ElementType {
    if idx == 0 {
        ElementType::Wall
    } else if idx == 1 {
        ElementType::Door
    } else if idx == 2 {
        ElementType::Window
    } else if idx == 3 {
        ElementType::SlidingDoor
    } else if idx == 4 {
        ElementType::Fireplace
    } else if idx == 5 {
        ElementType::Closet
    } else if idx == 6 {
        ElementType::Staircase
    } else if idx == 7 {
        ElementType::Chimney
    } else if idx == 8 {
        ElementType::Courtyard
    } else {
        ElementType::Unclassified
    }
}

/// Training label index of an element type.
pub open spec fn spec_element_type_index(t: ElementType) -> int {
    match t {
        ElementType::Wall => 0,
        ElementType::Door => 1,
        ElementType::Window => 2,
        ElementType::SlidingDoor => 3,
        ElementType::Fireplace => 4,
        ElementType::Closet => 5,
        ElementType::Staircase => 6,
        ElementType::Chimney => 7,
        ElementType::Courtyard => 8,
        ElementType::Unclassified => 9,
    }
}

/// Maps a classifier output index to its element type.
pub fn index_to_element_type(idx: usize) -> (r: ElementType)
    ensures
        r == spec_index_to_element_type(idx as int),
{
    match idx {
        0 => ElementType::Wall,
        1 => ElementType::Door,
        2 => ElementType::Window,
        3 => ElementType::SlidingDoor,
        4 => ElementType::Fireplace,
        5 => ElementType::Closet,
        6 => ElementType::Staircase,
        7 => ElementType::Chimney,
        8 => ElementType::Courtyard,
        _ => ElementType::Unclassified,
    }
}

/// The ten output indices name the ten element types one to one: every type is the
/// type of exactly its own label index.
pub proof fn lemma_label_order_round_trip(t: ElementType, idx: int)
    requires
        0 <= idx < N_CLASSES,
    ensures
        spec_index_to_element_type(spec_element_type_index(t)) == t,
        spec_element_type_index(spec_index_to_element_type(idx)) == idx,
{
}

/// Bucket of source class `i` of `n` when `n` classifier outputs are grouped into ten
/// consecutive buckets: `floor(10 i / n)`, capped at 9.
pub open spec fn spec_class_bucket(i: int, n: int) -> int {
    let b = (i * 10) / n;
    if b < 9 {
        b
    } else {
        9
    }
}

/// Bucket of source class `i` when `n` outputs are grouped into ten consecutive buckets.
pub fn class_bucket(i: usize, n: usize) -> (r: usize)
    requires
        n > 0,
        i < n,
        i * 10 <= usize::MAX,
    ensures
        r == spec_class_bucket(i as int, n as int),
        r < N_CLASSES,
{
    let b = (i * 10) / n;
    if b < 9 {
        b
    } else {
        9
    }
}

/// Grouping into buckets keeps the order of the source classes, and bucket `b` starts at
/// the first class `i` with `10 i >= b n`: consecutive classes fill the buckets in turn.
pub proof fn lemma_class_buckets_in_order(i: int, j: int, n: int)
    requires
        0 <= i <= j < n,
    ensures
        0 <= spec_class_bucket(i, n) <= spec_class_bucket(j, n) < 10,
        spec_class_bucket(i, n) == (i * 10) / n,
{
    assert((i * 10) / n <= (j * 10) / n) by (nonlinear_arith)
        requires
            0 <= i <= j,
            n > 0,
    ;
    assert(0 <= (i * 10) / n < 10) by (nonlinear_arith)
        requires
            0 <= i < n,
    ;
    assert(0 <= (j * 10) / n < 10) by (nonlinear_arith)
        requires
            0 <= j < n,
    ;
}

/// Smallest of the first `k` values of `s`.
pub open spec fn min_upto(s: Seq<u32>, k: int) -> u32
    decreases k,
{
    if k <= 1 {
        s[0]
    } else {
        let m = min_upto(s, k - 1);
        if s[k - 1] < m {
            s[k - 1]
        } else {
            m
        }
    }
}

/// Largest of the first `k` values of `s`.
pub open spec fn max_upto(s: Seq<u32>, k: int) -> u32
    decreases k,
{
    if k <= 1 {
        s[0]
    } else {
        let m = max_upto(s, k - 1);
        if s[k - 1] > m {
            s[k - 1]
        } else {
            m
        }
    }
}

/// Padding, in pixels, around a segment's bounding box when its image patch is cut out.
pub const PATCH_PAD_PX: u32 = 8;

/// The image patch classified for a segment with the given points: the bounding box of
/// the points grown by `PATCH_PAD_PX` on each side, clipped at the left and top image
/// border and at the last pixel column and row; `None` when there are no points or the
/// patch has no width or height.
pub open spec fn spec_segment_patch(points: Seq<ImagePoint>, img_w: u32, img_h: u32) -> Option<CropRegion> {
    if points.len() == 0 {
        None
    } else {
        let xs = points.map_values(|p: ImagePoint| p.x);
        let ys = points.map_values(|p: ImagePoint| p.y);
        let n = points.len() as int;
        let x0 = if min_upto(xs, n) >= PATCH_PAD_PX { min_upto(xs, n) - PATCH_PAD_PX } else { 0 };
        let y0 = if min_upto(ys, n) >= PATCH_PAD_PX { min_upto(ys, n) - PATCH_PAD_PX } else { 0 };
        let last_col = if img_w >= 1 { img_w - 1 } else { 0 };
        let last_row = if img_h >= 1 { img_h - 1 } else { 0 };
        let x1 = if max_upto(xs, n) + PATCH_PAD_PX <= last_col { max_upto(xs, n) + PATCH_PAD_PX } else { last_col };
        let y1 = if max_upto(ys, n) + PATCH_PAD_PX <= last_row { max_upto(ys, n) + PATCH_PAD_PX } else { last_row };
        let w = if x1 >= x0 { x1 - x0 } else { 0 };
        let h = if y1 >= y0 { y1 - y0 } else { 0 };
        if w == 0 || h == 0 {
            None
        } else {
            Some(CropRegion { x: x0 as u32, y: y0 as u32, width: w as u32, height: h as u32 })
        }
    }
}

/// Rectangle of the image patch handed to the classifier for a segment.
pub fn segment_patch(points: &Vec<ImagePoint>, img_w: u32, img_h: u32) -> (r: Option<CropRegion>)
    ensures
        r == spec_segment_patch(points@, img_w, img_h),
{
    if points.len() == 0 {
        return None;
    }
    let ghost xs = points@.map_values(|p: ImagePoint| p.x);
    let ghost ys = points@.map_values(|p: ImagePoint| p.y);
    let mut min_x = points[0].x;
    let mut max_x = points[0].x;
    let mut min_y = points[0].y;
    let mut max_y = points[0].y;
    let mut k: usize = 1;
    while k < points.len()
        invariant
            1 <= k <= points@.len(),
            xs == points@.map_values(|p: ImagePoint| p.x),
            ys == points@.map_values(|p: ImagePoint| p.y),
            min_x == min_upto(xs, k as int),
            max_x == max_upto(xs, k as int),
            min_y == min_upto(ys, k as int),
            max_y == max_upto(ys, k as int),
        decreases points@.len() - k,
    {
        let p = points[k];
        assert(xs[k as int] == p.x && ys[k as int] == p.y);
        if p.x < min_x {
            min_x = p.x;
        }
        if p.x > max_x {
            max_x = p.x;
        }
        if p.y < min_y {
            min_y = p.y;
        }
        if p.y > max_y {
            max_y = p.y;
        }
        k = k + 1;
    }
    let x0: u32 = min_x.saturating_sub(PATCH_PAD_PX);
    let y0: u32 = min_y.saturating_sub(PATCH_PAD_PX);
    let last_col: u64 = img_w.saturating_sub(1) as u64;
    let last_row: u64 = img_h.saturating_sub(1) as u64;
    let far_x: u64 = max_x as u64 + PATCH_PAD_PX as u64;
    let far_y: u64 = max_y as u64 + PATCH_PAD_PX as u64;
    let x1: u64 = if far_x <= last_col { far_x } else { last_col };
    let y1: u64 = if far_y <= last_row { far_y } else { last_row };
    let w: u64 = if x1 >= x0 as u64 { x1 - x0 as u64 } else { 0 };
    let h: u64 = if y1 >= y0 as u64 { y1 - y0 as u64 } else { 0 };
    if w == 0 || h == 0 {
        None
    } else {
        Some(CropRegion { x: x0, y: y0, width: w as u32, height: h as u32 })
    }
}

} // verus!
