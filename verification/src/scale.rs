use vstd::prelude::*;
use crate::blueprint::ImagePoint;
use crate::text::{string_from_chars, string_of};

verus! {

/// Why two clicked points cannot serve as a scale reference.
#[derive(Debug, Clone, Copy, PartialEq, Eq, Structural)]
pub enum ScaleError {
    /// Both points are the same pixel.
    NotDistinct,
    /// The real-world distance entered is zero or negative.
    NonPositiveDistance,
    /// The first point lies outside the `width` x `height` image.
    PointAOutside { x: u32, y: u32, width: u32, height: u32 },
    /// The second point lies outside the `width` x `height` image.
    PointBOutside { x: u32, y: u32, width: u32, height: u32 },
}

/// Decimal digit character for `d < 10`.
pub open spec fn digit_char(d: nat) -> char {
    (48 + d) as char
}

/// Decimal notation of `n`, without leading zeros.
pub open spec fn decimal(n: nat) -> Seq<char>
    decreases n,
{
    if n < 10 {
        seq![digit_char(n)]
    } else {
        decimal(n / 10).push(digit_char(n % 10))
    }
}

/// Appends the decimal digits of `n` to `out`.
fn push_decimal(n: u32, out: &mut Vec<char>)
    ensures
        final(out)@ == old(out)@ + decimal(n as nat),
    decreases n,
{
    if n >= 10 {
        push_decimal(n / 10, out);
    }
    let d = (n % 10) as u8;
    let c = (48u8 + d) as char;
    assert(c == digit_char((n % 10) as nat));
    out.push(c);
    proof {
        if n >= 10 {
            assert(decimal(n as nat) == decimal((n / 10) as nat).push(digit_char((n % 10) as nat)));
        } else {
            assert(decimal(n as nat) == seq![digit_char(n as nat)]);
        }
    }
}

/// Decimal text of `v`: its digits without leading zeros (`0` for zero), as `u32`'s
/// `Display` writes it.
fn decimal_text(v: u32) -> (r: String)
    ensures
        r@ == decimal(v as nat),
{
    let mut digits: Vec<char> = Vec::new();
    push_decimal(v, &mut digits);
    assert(digits@ == decimal(v as nat));
    string_from_chars(&digits)
}

/// Which check a scale reference fails first: distinct points, then a positive
/// distance, then the first point inside the image, then the second.
pub open spec fn spec_scale_check(a: ImagePoint, b: ImagePoint, distance_positive: bool, width: u32, height: u32) -> Result<(), ScaleError> {
    if a == b {
        Err(ScaleError::NotDistinct)
    } else if !distance_positive {
        Err(ScaleError::NonPositiveDistance)
    } else if a.x >= width || a.y >= height {
        Err(ScaleError::PointAOutside { x: a.x, y: a.y, width, height })
    } else if b.x >= width || b.y >= height {
        Err(ScaleError::PointBOutside { x: b.x, y: b.y, width, height })
    } else {
        Ok(())
    }
}

/// Validates the two reference points of a scale: they must differ, the real-world
/// distance must be positive (`distance_positive`), and both must lie inside the
/// `width` x `height` image. The first failing check is reported.
pub fn validate_scale_points(a: ImagePoint, b: ImagePoint, distance_positive: bool, width: u32, height: u32) -> (r: Result<(), ScaleError>)
    ensures
        r == spec_scale_check(a, b, distance_positive, width, height),
{
    if a.x == b.x && a.y == b.y {
        Err(ScaleError::NotDistinct)
    } else if !distance_positive {
        Err(ScaleError::NonPositiveDistance)
    } else if a.x >= width || a.y >= height {
        Err(ScaleError::PointAOutside { x: a.x, y: a.y, width, height })
    } else if b.x >= width || b.y >= height {
        Err(ScaleError::PointBOutside { x: b.x, y: b.y, width, height })
    } else {
        Ok(())
    }
}

/// Squared pixel distance between the two reference points; the scale's pixel distance
/// is its square root.
pub fn pixel_distance_sq(a: ImagePoint, b: ImagePoint) -> (r: u128)
    ensures
        r == (b.x - a.x) * (b.x - a.x) + (b.y - a.y) * (b.y - a.y),
{
    let dx: u64 = if a.x >= b.x { (a.x - b.x) as u64 } else { (b.x - a.x) as u64 };
    let dy: u64 = if a.y >= b.y { (a.y - b.y) as u64 } else { (b.y - a.y) as u64 };
    assert(dx * dx <= 0xffff_fffe_0000_0001 && dy * dy <= 0xffff_fffe_0000_0001) by (nonlinear_arith)
        requires
            dx <= 0xffff_ffff,
            dy <= 0xffff_ffff,
    ;
    assert(dx * dx == (b.x - a.x) * (b.x - a.x) && dy * dy == (b.y - a.y) * (b.y - a.y)) by (nonlinear_arith)
        requires
            dx == b.x - a.x || dx == a.x - b.x,
            dy == b.y - a.y || dy == a.y - b.y,
    ;
    let sx: u128 = dx as u128 * dx as u128;
    let sy: u128 = dy as u128 * dy as u128;
    sx + sy
}

/// Message for a reference point outside the image: `<label> (x,y) is outside image
/// bounds W×H`.
pub open spec fn outside_text(label: Seq<char>, x: u32, y: u32, width: u32, height: u32) -> Seq<char> {
    label + " ("@ + decimal(x as nat) + ","@ + decimal(y as nat) + ") is outside image bounds "@ + decimal(
        width as nat,
    ) + "\u{d7}"@ + decimal(height as nat)
}

fn point_outside_message(label: &str, x: u32, y: u32, width: u32, height: u32) -> (r: String)
    ensures
        r@ == outside_text(label@, x, y, width, height),
{
    let mut m = string_of(label);
    m.append(" (");
    m.append(decimal_text(x).as_str());
    m.append(",");
    m.append(decimal_text(y).as_str());
    m.append(") is outside image bounds ");
    m.append(decimal_text(width).as_str());
    m.append("\u{d7}");
    m.append(decimal_text(height).as_str());
    m
}

impl ScaleError {
    /// Human-readable description of the error.
    pub fn message(&self) -> (r: String)
        ensures
            match self {
                ScaleError::NotDistinct => r@ == "Scale reference points must be distinct"@,
                ScaleError::NonPositiveDistance => r@ == "Real-world distance must be greater than zero"@,
                ScaleError::PointAOutside { x, y, width, height } => r@ == outside_text("point_a"@, *x, *y, *width, *height),
                ScaleError::PointBOutside { x, y, width, height } => r@ == outside_text("point_b"@, *x, *y, *width, *height),
            },
    {
        match self {
            ScaleError::NotDistinct => string_of("Scale reference points must be distinct"),
            ScaleError::NonPositiveDistance => string_of("Real-world distance must be greater than zero"),
            ScaleError::PointAOutside { x, y, width, height } => point_outside_message("point_a", *x, *y, *width, *height),
            ScaleError::PointBOutside { x, y, width, height } => point_outside_message("point_b", *x, *y, *width, *height),
        }
    }
}

} // verus!
