use vstd::prelude::*;
use crate::blueprint::ElementType;
use crate::merge::first_occurrences;
use crate::text::{chars_of, string_from_chars, string_of};

verus! {

/// Material name used in the OBJ/MTL export for an element type.
pub open spec fn spec_material_name(t: ElementType) -> Seq<char> {
    match t {
        ElementType::Wall => "mat_wall"@,
        ElementType::Door => "mat_door"@,
        ElementType::Window => "mat_window"@,
        ElementType::SlidingDoor => "mat_sliding_door"@,
        ElementType::Fireplace => "mat_fireplace"@,
        ElementType::Closet => "mat_closet"@,
        ElementType::Staircase => "mat_staircase"@,
        ElementType::Chimney => "mat_chimney"@,
        ElementType::Courtyard => "mat_courtyard"@,
        ElementType::Unclassified => "mat_unclassified"@,
    }
}

/// Prefix of the OBJ group name of an element (the element type in snake case).
pub open spec fn spec_group_prefix(t: ElementType) -> Seq<char> {
    match t {
        ElementType::Wall => "wall"@,
        ElementType::Door => "door"@,
        ElementType::Window => "window"@,
        ElementType::SlidingDoor => "sliding_door"@,
        ElementType::Fireplace => "fireplace"@,
        ElementType::Closet => "closet"@,
        ElementType::Staircase => "staircase"@,
        ElementType::Chimney => "chimney"@,
        ElementType::Courtyard => "courtyard"@,
        ElementType::Unclassified => "unclassified"@,
    }
}

/// Material name used in the OBJ/MTL export for an element type.
pub fn material_name(t: &ElementType) -> (r: &'static str)
    ensures
        r@ == spec_material_name(*t),
{
    match t {
        ElementType::Wall => "mat_wall",
        ElementType::Door => "mat_door",
        ElementType::Window => "mat_window",
        ElementType::SlidingDoor => "mat_sliding_door",
        ElementType::Fireplace => "mat_fireplace",
        ElementType::Closet => "mat_closet",
        ElementType::Staircase => "mat_staircase",
        ElementType::Chimney => "mat_chimney",
        ElementType::Courtyard => "mat_courtyard",
        ElementType::Unclassified => "mat_unclassified",
    }
}

/// Prefix of the OBJ group name of an element (the element type in snake case).
pub fn group_prefix(t: &ElementType) -> (r: &'static str)
    ensures
        r@ == spec_group_prefix(*t),
{
    match t {
        ElementType::Wall => "wall",
        ElementType::Door => "door",
        ElementType::Window => "window",
        ElementType::SlidingDoor => "sliding_door",
        ElementType::Fireplace => "fireplace",
        ElementType::Closet => "closet",
        ElementType::Staircase => "staircase",
        ElementType::Chimney => "chimney",
        ElementType::Courtyard => "courtyard",
        ElementType::Unclassified => "unclassified",
    }
}

/// How an element is extruded into a box, relative to the wall height `H`.
#[derive(Debug, Clone, Copy, PartialEq, Eq, Structural)]
pub enum Extrusion {
    /// From the floor up to `H` (walls and closets).
    FullHeight,
    /// From the floor up to `1.2 H` (chimneys rise above the walls).
    Chimney,
    /// From the floor up to `0.5 H` (staircases).
    HalfHeight,
    /// From `0.3 H` up to `0.8 H` (windows sit above the floor).
    Window,
    /// From the floor up to 0.3 m (fireplace hearth slab).
    Hearth,
    /// From -0.05 m up to the floor (courtyards are recessed floor areas).
    Recessed,
}

/// The extrusion of each element type; doors and sliding doors are wall openings and
/// unclassified elements are left out of the model, so these get no geometry.
pub open spec fn spec_extrusion(t: ElementType) -> Option<Extrusion> {
    match t {
        ElementType::Door | ElementType::SlidingDoor | ElementType::Unclassified => None,
        ElementType::Chimney => Some(Extrusion::Chimney),
        ElementType::Staircase => Some(Extrusion::HalfHeight),
        ElementType::Window => Some(Extrusion::Window),
        ElementType::Fireplace => Some(Extrusion::Hearth),
        ElementType::Courtyard => Some(Extrusion::Recessed),
        ElementType::Wall | ElementType::Closet => Some(Extrusion::FullHeight),
    }
}

/// The extrusion used for an element type, `None` for openings and unclassified
/// elements, which produce no geometry.
pub fn extrusion_for(t: &ElementType) -> (r: Option<Extrusion>)
    ensures
        r == spec_extrusion(*t),
{
    match t {
        ElementType::Door | ElementType::SlidingDoor | ElementType::Unclassified => None,
        ElementType::Chimney => Some(Extrusion::Chimney),
        ElementType::Staircase => Some(Extrusion::HalfHeight),
        ElementType::Window => Some(Extrusion::Window),
        ElementType::Fireplace => Some(Extrusion::Hearth),
        ElementType::Courtyard => Some(Extrusion::Recessed),
        ElementType::Wall | ElementType::Closet => Some(Extrusion::FullHeight),
    }
}

/// Whether the element at index `k` of `types` is given a mesh.
pub open spec fn meshed_at(types: Seq<ElementType>) -> spec_fn(usize) -> bool {
    |k: usize| spec_extrusion(types[k as int]) is Some
}

/// The indices of the elements that are given a mesh, in element order.
pub open spec fn meshed_indices(types: Seq<ElementType>) -> Seq<usize> {
    Seq::new(types.len(), |k: int| k as usize).filter(meshed_at(types))
}

/// The indices, in order, of the elements of a floor plan (given by their types) that the
/// model generator extrudes into a mesh: every element but openings and unclassified ones.
pub fn meshed_element_indices(types: &Vec<ElementType>) -> (r: Vec<usize>)
    ensures
        r@ == meshed_indices(types@),
{
    let mut r: Vec<usize> = Vec::new();
    let ghost idx = Seq::new(types@.len(), |k: int| k as usize);
    let ghost pred = meshed_at(types@);
    let mut k: usize = 0;
    while k < types.len()
        invariant
            k <= types@.len(),
            idx == Seq::new(types@.len(), |k: int| k as usize),
            pred == meshed_at(types@),
            r@ == idx.take(k as int).filter(pred),
        decreases types@.len() - k,
    {
        proof {
            crate::tracing::lemma_filter_step(idx, pred, k as int);
            assert(idx[k as int] == k);
        }
        if extrusion_for(&types[k]).is_some() {
            r.push(k);
        }
        k = k + 1;
    }
    assert(idx.take(types@.len() as int) == idx);
    r
}

/// Distinct material names: no two element types share a material.
pub proof fn lemma_material_names_distinct(a: ElementType, b: ElementType)
    requires
        spec_material_name(a) == spec_material_name(b),
    ensures
        a == b,
{
    reveal_strlit("mat_wall");
    reveal_strlit("mat_door");
    reveal_strlit("mat_window");
    reveal_strlit("mat_sliding_door");
    reveal_strlit("mat_fireplace");
    reveal_strlit("mat_closet");
    reveal_strlit("mat_staircase");
    reveal_strlit("mat_chimney");
    reveal_strlit("mat_courtyard");
    reveal_strlit("mat_unclassified");
    if a != b {
        let sa = spec_material_name(a);
        let sb = spec_material_name(b);
        if sa.len() == sb.len() {
            assert(exists|i: int| 0 <= i < sa.len() && sa[i] != sb[i]) by {
                match (a, b) {
                    (ElementType::Closet, ElementType::Window) | (ElementType::Window, ElementType::Closet) => {
                        assert(sa[4] != sb[4]);
                    },
                    (ElementType::Closet, ElementType::Chimney) | (ElementType::Chimney, ElementType::Closet) => {
                        assert(sa[5] != sb[5]);
                    },
                    (ElementType::Window, ElementType::Chimney) | (ElementType::Chimney, ElementType::Window) => {
                        assert(sa[4] != sb[4]);
                    },
                    _ => {
                        assert(sa[4] != sb[4]);
                    },
                }
            }
        }
    }
}

/// A corner of an axis-aligned box, numbered 0..8 as
/// `(x0,y0,z0) (x1,y0,z0) (x1,y0,z1) (x0,y0,z1) (x0,y1,z0) (x1,y1,z0) (x1,y1,z1) (x0,y1,z1)`;
/// the result tells for each axis whether the corner lies on the upper side.
pub open spec fn corner_sides(c: int) -> (bool, bool, bool) {
    let upper_x = c == 1 || c == 2 || c == 5 || c == 6;
    let upper_y = c >= 4;
    let upper_z = c == 2 || c == 3 || c == 6 || c == 7;
    (upper_x, upper_y, upper_z)
}

/// One triangle of a box: three corner numbers and the outward unit normal.
#[derive(Debug, Clone, Copy, PartialEq, Eq)]
pub struct BoxTriangle {
    pub corners: (usize, usize, usize),
    pub normal: (i8, i8, i8),
}

/// The twelve triangles of a box: two per face, bottom, top, front (z0), back (z1),
/// left (x0) and right (x1), each face with its outward normal.
pub open spec fn spec_box_triangles() -> Seq<BoxTriangle> {
    seq![
        BoxTriangle { corners: (0usize, 2usize, 3usize), normal: (0i8, -1i8, 0i8) },
        BoxTriangle { corners: (0usize, 1usize, 2usize), normal: (0i8, -1i8, 0i8) },
        BoxTriangle { corners: (4usize, 6usize, 5usize), normal: (0i8, 1i8, 0i8) },
        BoxTriangle { corners: (4usize, 7usize, 6usize), normal: (0i8, 1i8, 0i8) },
        BoxTriangle { corners: (0usize, 5usize, 1usize), normal: (0i8, 0i8, -1i8) },
        BoxTriangle { corners: (0usize, 4usize, 5usize), normal: (0i8, 0i8, -1i8) },
        BoxTriangle { corners: (2usize, 7usize, 3usize), normal: (0i8, 0i8, 1i8) },
        BoxTriangle { corners: (2usize, 6usize, 7usize), normal: (0i8, 0i8, 1i8) },
        BoxTriangle { corners: (3usize, 4usize, 0usize), normal: (-1i8, 0i8, 0i8) },
        BoxTriangle { corners: (3usize, 7usize, 4usize), normal: (-1i8, 0i8, 0i8) },
        BoxTriangle { corners: (1usize, 6usize, 2usize), normal: (1i8, 0i8, 0i8) },
        BoxTriangle { corners: (1usize, 5usize, 6usize), normal: (1i8, 0i8, 0i8) },
    ]
}

/// The twelve triangles (two per face) of an axis-aligned box, as corner numbers and
/// outward normals; the caller places the eight corners.
pub fn box_triangle_corners() -> (r: Vec<BoxTriangle>)
    ensures
        r@ == spec_box_triangles(),
{
    let mut tris: Vec<BoxTriangle> = Vec::new();
    tris.push(BoxTriangle { corners: (0usize, 2usize, 3usize), normal: (0i8, -1i8, 0i8) });
    tris.push(BoxTriangle { corners: (0usize, 1usize, 2usize), normal: (0i8, -1i8, 0i8) });
    tris.push(BoxTriangle { corners: (4usize, 6usize, 5usize), normal: (0i8, 1i8, 0i8) });
    tris.push(BoxTriangle { corners: (4usize, 7usize, 6usize), normal: (0i8, 1i8, 0i8) });
    tris.push(BoxTriangle { corners: (0usize, 5usize, 1usize), normal: (0i8, 0i8, -1i8) });
    tris.push(BoxTriangle { corners: (0usize, 4usize, 5usize), normal: (0i8, 0i8, -1i8) });
    tris.push(BoxTriangle { corners: (2usize, 7usize, 3usize), normal: (0i8, 0i8, 1i8) });
    tris.push(BoxTriangle { corners: (2usize, 6usize, 7usize), normal: (0i8, 0i8, 1i8) });
    tris.push(BoxTriangle { corners: (3usize, 4usize, 0usize), normal: (-1i8, 0i8, 0i8) });
    tris.push(BoxTriangle { corners: (3usize, 7usize, 4usize), normal: (-1i8, 0i8, 0i8) });
    tris.push(BoxTriangle { corners: (1usize, 6usize, 2usize), normal: (1i8, 0i8, 0i8) });
    tris.push(BoxTriangle { corners: (1usize, 5usize, 6usize), normal: (1i8, 0i8, 0i8) });
    assert(tris@ =~= spec_box_triangles());
    tris
}

/// Coordinate of box corner `c` for the box `[x0,x1] x [y0,y1] x [z0,z1]`.
pub open spec fn corner_point(c: int, x0: int, y0: int, z0: int, x1: int, y1: int, z1: int) -> (int, int, int) {
    let (ux, uy, uz) = corner_sides(c);
    (if ux { x1 } else { x0 }, if uy { y1 } else { y0 }, if uz { z1 } else { z0 })
}

/// Cross product `(b - a) x (c - a)`.
pub open spec fn cross(a: (int, int, int), b: (int, int, int), c: (int, int, int)) -> (int, int, int) {
    let u = (b.0 - a.0, b.1 - a.1, b.2 - a.2);
    let v = (c.0 - a.0, c.1 - a.1, c.2 - a.2);
    (u.1 * v.2 - u.2 * v.1, u.2 * v.0 - u.0 * v.2, u.0 * v.1 - u.1 * v.0)
}

/// Corner `c` lies on the face of the box whose outward normal is `n`.
pub open spec fn on_face(c: int, n: (i8, i8, i8)) -> bool {
    let (ux, uy, uz) = corner_sides(c);
    (n.0 == 1 ==> ux) && (n.0 == -1 ==> !ux) && (n.1 == 1 ==> uy) && (n.1 == -1 ==> !uy) && (n.2 == 1
        ==> uz) && (n.2 == -1 ==> !uz)
}

/// Triangle `t`, placed on the box `[x0,x1] x [y0,y1] x [z0,z1]`, lies on the face its
/// normal names and its corners run counter-clockwise seen from outside: the cross product
/// of its edges points along the outward normal.
pub open spec fn outward_ccw(t: BoxTriangle, x0: int, y0: int, z0: int, x1: int, y1: int, z1: int) -> bool {
    let a = corner_point(t.corners.0 as int, x0, y0, z0, x1, y1, z1);
    let b = corner_point(t.corners.1 as int, x0, y0, z0, x1, y1, z1);
    let c = corner_point(t.corners.2 as int, x0, y0, z0, x1, y1, z1);
    let n = cross(a, b, c);
    &&& on_face(t.corners.0 as int, t.normal)
    &&& on_face(t.corners.1 as int, t.normal)
    &&& on_face(t.corners.2 as int, t.normal)
    &&& (n.0 * (t.normal.0 as int) > 0 || (t.normal.0 == 0 && n.0 == 0))
    &&& (n.1 * (t.normal.1 as int) > 0 || (t.normal.1 == 0 && n.1 == 0))
    &&& (n.2 * (t.normal.2 as int) > 0 || (t.normal.2 == 0 && n.2 == 0))
}

proof fn lemma_triangle_outward(i: int, x0: int, y0: int, z0: int, x1: int, y1: int, z1: int)
    requires
        0 <= i < 12,
        x0 < x1,
        y0 < y1,
        z0 < z1,
    ensures
        outward_ccw(spec_box_triangles()[i], x0, y0, z0, x1, y1, z1),
{
    let t = spec_box_triangles()[i];
    let a = corner_point(t.corners.0 as int, x0, y0, z0, x1, y1, z1);
    let b = corner_point(t.corners.1 as int, x0, y0, z0, x1, y1, z1);
    let c = corner_point(t.corners.2 as int, x0, y0, z0, x1, y1, z1);
    let u = (b.0 - a.0, b.1 - a.1, b.2 - a.2);
    let v = (c.0 - a.0, c.1 - a.1, c.2 - a.2);
    let n = cross(a, b, c);
    let dx = x1 - x0;
    let dy = y1 - y0;
    let dz = z1 - z0;
    if i == 0 {
        assert(t.corners == (0usize, 2usize, 3usize) && t.normal == (0i8, -1i8, 0i8));
        assert(u.0 == dx && u.1 == 0 && u.2 == dz && v.0 == 0 && v.1 == 0 && v.2 == dz);
        assert(n.0 == 0 && n.1 * -1 > 0 && n.2 == 0) by (nonlinear_arith)
            requires
                u.0 == dx,
                u.1 == 0,
                u.2 == dz,
                v.0 == 0,
                v.1 == 0,
                v.2 == dz,
                dx > 0,
                dy > 0,
                dz > 0,
                n.0 == u.1 * v.2 - u.2 * v.1,
                n.1 == u.2 * v.0 - u.0 * v.2,
                n.2 == u.0 * v.1 - u.1 * v.0,
        ;
    } else if i == 1 {
        assert(t.corners == (0usize, 1usize, 2usize) && t.normal == (0i8, -1i8, 0i8));
        assert(u.0 == dx && u.1 == 0 && u.2 == 0 && v.0 == dx && v.1 == 0 && v.2 == dz);
        assert(n.0 == 0 && n.1 * -1 > 0 && n.2 == 0) by (nonlinear_arith)
            requires
                u.0 == dx,
                u.1 == 0,
                u.2 == 0,
                v.0 == dx,
                v.1 == 0,
                v.2 == dz,
                dx > 0,
                dy > 0,
                dz > 0,
                n.0 == u.1 * v.2 - u.2 * v.1,
                n.1 == u.2 * v.0 - u.0 * v.2,
                n.2 == u.0 * v.1 - u.1 * v.0,
        ;
    } else if i == 2 {
        assert(t.corners == (4usize, 6usize, 5usize) && t.normal == (0i8, 1i8, 0i8));
        assert(u.0 == dx && u.1 == 0 && u.2 == dz && v.0 == dx && v.1 == 0 && v.2 == 0);
        assert(n.0 == 0 && n.1 * 1 > 0 && n.2 == 0) by (nonlinear_arith)
            requires
                u.0 == dx,
                u.1 == 0,
                u.2 == dz,
                v.0 == dx,
                v.1 == 0,
                v.2 == 0,
                dx > 0,
                dy > 0,
                dz > 0,
                n.0 == u.1 * v.2 - u.2 * v.1,
                n.1 == u.2 * v.0 - u.0 * v.2,
                n.2 == u.0 * v.1 - u.1 * v.0,
        ;
    } else if i == 3 {
        assert(t.corners == (4usize, 7usize, 6usize) && t.normal == (0i8, 1i8, 0i8));
        assert(u.0 == 0 && u.1 == 0 && u.2 == dz && v.0 == dx && v.1 == 0 && v.2 == dz);
        assert(n.0 == 0 && n.1 * 1 > 0 && n.2 == 0) by (nonlinear_arith)
            requires
                u.0 == 0,
                u.1 == 0,
                u.2 == dz,
                v.0 == dx,
                v.1 == 0,
                v.2 == dz,
                dx > 0,
                dy > 0,
                dz > 0,
                n.0 == u.1 * v.2 - u.2 * v.1,
                n.1 == u.2 * v.0 - u.0 * v.2,
                n.2 == u.0 * v.1 - u.1 * v.0,
        ;
    } else if i == 4 {
        assert(t.corners == (0usize, 5usize, 1usize) && t.normal == (0i8, 0i8, -1i8));
        assert(u.0 == dx && u.1 == dy && u.2 == 0 && v.0 == dx && v.1 == 0 && v.2 == 0);
        assert(n.0 == 0 && n.1 == 0 && n.2 * -1 > 0) by (nonlinear_arith)
            requires
                u.0 == dx,
                u.1 == dy,
                u.2 == 0,
                v.0 == dx,
                v.1 == 0,
                v.2 == 0,
                dx > 0,
                dy > 0,
                dz > 0,
                n.0 == u.1 * v.2 - u.2 * v.1,
                n.1 == u.2 * v.0 - u.0 * v.2,
                n.2 == u.0 * v.1 - u.1 * v.0,
        ;
    } else if i == 5 {
        assert(t.corners == (0usize, 4usize, 5usize) && t.normal == (0i8, 0i8, -1i8));
        assert(u.0 == 0 && u.1 == dy && u.2 == 0 && v.0 == dx && v.1 == dy && v.2 == 0);
        assert(n.0 == 0 && n.1 == 0 && n.2 * -1 > 0) by (nonlinear_arith)
            requires
                u.0 == 0,
                u.1 == dy,
                u.2 == 0,
                v.0 == dx,
                v.1 == dy,
                v.2 == 0,
                dx > 0,
                dy > 0,
                dz > 0,
                n.0 == u.1 * v.2 - u.2 * v.1,
                n.1 == u.2 * v.0 - u.0 * v.2,
                n.2 == u.0 * v.1 - u.1 * v.0,
        ;
    } else if i == 6 {
        assert(t.corners == (2usize, 7usize, 3usize) && t.normal == (0i8, 0i8, 1i8));
        assert(u.0 == -dx && u.1 == dy && u.2 == 0 && v.0 == -dx && v.1 == 0 && v.2 == 0);
        assert(n.0 == 0 && n.1 == 0 && n.2 * 1 > 0) by (nonlinear_arith)
            requires
                u.0 == -dx,
                u.1 == dy,
                u.2 == 0,
                v.0 == -dx,
                v.1 == 0,
                v.2 == 0,
                dx > 0,
                dy > 0,
                dz > 0,
                n.0 == u.1 * v.2 - u.2 * v.1,
                n.1 == u.2 * v.0 - u.0 * v.2,
                n.2 == u.0 * v.1 - u.1 * v.0,
        ;
    } else if i == 7 {
        assert(t.corners == (2usize, 6usize, 7usize) && t.normal == (0i8, 0i8, 1i8));
        assert(u.0 == 0 && u.1 == dy && u.2 == 0 && v.0 == -dx && v.1 == dy && v.2 == 0);
        assert(n.0 == 0 && n.1 == 0 && n.2 * 1 > 0) by (nonlinear_arith)
            requires
                u.0 == 0,
                u.1 == dy,
                u.2 == 0,
                v.0 == -dx,
                v.1 == dy,
                v.2 == 0,
                dx > 0,
                dy > 0,
                dz > 0,
                n.0 == u.1 * v.2 - u.2 * v.1,
                n.1 == u.2 * v.0 - u.0 * v.2,
                n.2 == u.0 * v.1 - u.1 * v.0,
        ;
    } else if i == 8 {
        assert(t.corners == (3usize, 4usize, 0usize) && t.normal == (-1i8, 0i8, 0i8));
        assert(u.0 == 0 && u.1 == dy && u.2 == -dz && v.0 == 0 && v.1 == 0 && v.2 == -dz);
        assert(n.0 * -1 > 0 && n.1 == 0 && n.2 == 0) by (nonlinear_arith)
            requires
                u.0 == 0,
                u.1 == dy,
                u.2 == -dz,
                v.0 == 0,
                v.1 == 0,
                v.2 == -dz,
                dx > 0,
                dy > 0,
                dz > 0,
                n.0 == u.1 * v.2 - u.2 * v.1,
                n.1 == u.2 * v.0 - u.0 * v.2,
                n.2 == u.0 * v.1 - u.1 * v.0,
        ;
    } else if i == 9 {
        assert(t.corners == (3usize, 7usize, 4usize) && t.normal == (-1i8, 0i8, 0i8));
        assert(u.0 == 0 && u.1 == dy && u.2 == 0 && v.0 == 0 && v.1 == dy && v.2 == -dz);
        assert(n.0 * -1 > 0 && n.1 == 0 && n.2 == 0) by (nonlinear_arith)
            requires
                u.0 == 0,
                u.1 == dy,
                u.2 == 0,
                v.0 == 0,
                v.1 == dy,
                v.2 == -dz,
                dx > 0,
                dy > 0,
                dz > 0,
                n.0 == u.1 * v.2 - u.2 * v.1,
                n.1 == u.2 * v.0 - u.0 * v.2,
                n.2 == u.0 * v.1 - u.1 * v.0,
        ;
    } else if i == 10 {
        assert(t.corners == (1usize, 6usize, 2usize) && t.normal == (1i8, 0i8, 0i8));
        assert(u.0 == 0 && u.1 == dy && u.2 == dz && v.0 == 0 && v.1 == 0 && v.2 == dz);
        assert(n.0 * 1 > 0 && n.1 == 0 && n.2 == 0) by (nonlinear_arith)
            requires
                u.0 == 0,
                u.1 == dy,
                u.2 == dz,
                v.0 == 0,
                v.1 == 0,
                v.2 == dz,
                dx > 0,
                dy > 0,
                dz > 0,
                n.0 == u.1 * v.2 - u.2 * v.1,
                n.1 == u.2 * v.0 - u.0 * v.2,
                n.2 == u.0 * v.1 - u.1 * v.0,
        ;
    } else if i == 11 {
        assert(t.corners == (1usize, 5usize, 6usize) && t.normal == (1i8, 0i8, 0i8));
        assert(u.0 == 0 && u.1 == dy && u.2 == 0 && v.0 == 0 && v.1 == dy && v.2 == dz);
        assert(n.0 * 1 > 0 && n.1 == 0 && n.2 == 0) by (nonlinear_arith)
            requires
                u.0 == 0,
                u.1 == dy,
                u.2 == 0,
                v.0 == 0,
                v.1 == dy,
                v.2 == dz,
                dx > 0,
                dy > 0,
                dz > 0,
                n.0 == u.1 * v.2 - u.2 * v.1,
                n.1 == u.2 * v.0 - u.0 * v.2,
                n.2 == u.0 * v.1 - u.1 * v.0,
        ;
    }
}

/// Every triangle of a box lies on the face its normal names, and its corners run
/// counter-clockwise seen from outside: for any box with positive extent on every axis,
/// the cross product of the triangle's edges points along the outward normal.
pub proof fn lemma_box_triangles_outward_ccw(x0: int, y0: int, z0: int, x1: int, y1: int, z1: int)
    requires
        x0 < x1,
        y0 < y1,
        z0 < z1,
    ensures
        forall|i: int| 0 <= i < 12 ==> #[trigger] outward_ccw(spec_box_triangles()[i], x0, y0, z0, x1, y1, z1),
{
    assert forall|i: int| 0 <= i < 12 implies #[trigger] outward_ccw(spec_box_triangles()[i], x0, y0, z0, x1, y1, z1) by {
        lemma_triangle_outward(i, x0, y0, z0, x1, y1, z1);
    }
}

/// `n` is one of the six outward unit normals of an axis-aligned box.
pub open spec fn is_axis_normal(n: (i8, i8, i8)) -> bool {
    &&& -1 <= n.0 <= 1
    &&& -1 <= n.1 <= 1
    &&& -1 <= n.2 <= 1
    &&& (n.0 != 0) as int + (n.1 != 0) as int + (n.2 != 0) as int == 1
}

/// Corner `c` is one of the three corners of triangle `t`.
pub open spec fn has_corner(t: BoxTriangle, c: int) -> bool {
    t.corners.0 == c || t.corners.1 == c || t.corners.2 == c
}

/// The twelve box triangles close the box: for each of the six outward normals exactly
/// two triangles carry it, and together those two use exactly the four corners of the
/// face with that normal. Every triangle carries one of the six normals.
pub proof fn lemma_box_triangles_cover_faces()
    ensures
        spec_box_triangles().len() == 12,
        forall|i: int| 0 <= i < 12 ==> is_axis_normal(#[trigger] spec_box_triangles()[i].normal),
        forall|n: (i8, i8, i8)|
            is_axis_normal(n) ==> exists|i: int, j: int|
                #![trigger spec_box_triangles()[i], spec_box_triangles()[j]]
                0 <= i < j < 12 && spec_box_triangles()[i].normal == n && spec_box_triangles()[j].normal == n
                    && (forall|k: int|
                    0 <= k < 12 && #[trigger] spec_box_triangles()[k].normal == n ==> k == i || k == j)
                    && (forall|c: int|
                    0 <= c < 8 ==> (#[trigger] on_face(c, n) <==> has_corner(spec_box_triangles()[i], c)
                        || has_corner(spec_box_triangles()[j], c))),
{
    let t = spec_box_triangles();
    assert forall|n: (i8, i8, i8)| is_axis_normal(n) implies exists|i: int, j: int|
        #![trigger t[i], t[j]]
        0 <= i < j < 12 && t[i].normal == n && t[j].normal == n && (forall|k: int|
            0 <= k < 12 && #[trigger] t[k].normal == n ==> k == i || k == j) && (forall|c: int|
            0 <= c < 8 ==> (#[trigger] on_face(c, n) <==> has_corner(t[i], c) || has_corner(t[j], c))) by {
        let f: int = if n == (0i8, -1i8, 0i8) {
            0
        } else if n == (0i8, 1i8, 0i8) {
            1
        } else if n == (0i8, 0i8, -1i8) {
            2
        } else if n == (0i8, 0i8, 1i8) {
            3
        } else if n == (-1i8, 0i8, 0i8) {
            4
        } else {
            5
        };
        let i = 2 * f;
        let j = 2 * f + 1;
        assert(t[i].normal == n && t[j].normal == n);
        assert forall|k: int| 0 <= k < 12 && #[trigger] t[k].normal == n implies k == i || k == j by {}
        assert forall|c: int| 0 <= c < 8 implies (#[trigger] on_face(c, n) <==> has_corner(t[i], c) || has_corner(
            t[j],
            c,
        )) by {}
    }
}

fn contains_type(v: &Vec<ElementType>, t: ElementType) -> (r: bool)
    ensures
        r == v@.contains(t),
{
    let mut k: usize = 0;
    while k < v.len()
        invariant
            k <= v.len(),
            forall|m: int| 0 <= m < k ==> v@[m] != t,
        decreases v.len() - k,
    {
        if v[k] == t {
            assert(v@[k as int] == t);
            return true;
        }
        k = k + 1;
    }
    false
}

/// The element types of the exported meshes in order of first occurrence, each once:
/// the materials written to the MTL library, in the order they are written.
pub fn materials_in_order(mesh_types: &Vec<ElementType>) -> (r: Vec<ElementType>)
    ensures
        r@ == first_occurrences(mesh_types@),
{
    let mut out: Vec<ElementType> = Vec::new();
    let mut k: usize = 0;
    while k < mesh_types.len()
        invariant
            k <= mesh_types.len(),
            out@ == first_occurrences(mesh_types@.take(k as int)),
        decreases mesh_types.len() - k,
    {
        let t = mesh_types[k];
        assert(mesh_types@.take(k as int + 1).drop_last() == mesh_types@.take(k as int));
        if !contains_type(&out, t) {
            out.push(t);
        }
        k = k + 1;
    }
    assert(mesh_types@.take(mesh_types.len() as int) == mesh_types@);
    out
}

/// Number of triangles in the meshes before mesh `m`.
pub open spec fn triangles_before(counts: Seq<usize>, m: int) -> int
    decreases m,
{
    if m <= 0 {
        0
    } else {
        triangles_before(counts, m - 1) + counts[m - 1]
    }
}

/// The 1-based OBJ vertex indices of face `t` of mesh `m`: every triangle writes its
/// own three vertices, meshes one after another, so global triangle `g` uses vertices
/// `3g + 1`, `3g + 2`, `3g + 3`.
pub open spec fn obj_face(counts: Seq<usize>, m: int, t: int) -> (int, int, int) {
    let g = triangles_before(counts, m) + t;
    (3 * g + 1, 3 * g + 2, 3 * g + 3)
}

proof fn lemma_triangles_before_monotone(counts: Seq<usize>, a: int, b: int)
    requires
        0 <= a <= b <= counts.len(),
    ensures
        0 <= triangles_before(counts, a) <= triangles_before(counts, b),
    decreases b - a,
{
    lemma_triangles_before_nonneg(counts, a);
    if a < b {
        lemma_triangles_before_monotone(counts, a, b - 1);
    }
}

proof fn lemma_triangles_before_nonneg(counts: Seq<usize>, a: int)
    requires
        0 <= a <= counts.len(),
    ensures
        0 <= triangles_before(counts, a),
    decreases a,
{
    if a > 0 {
        lemma_triangles_before_nonneg(counts, a - 1);
    }
}

/// Face lines of the OBJ export: for each mesh, given by its triangle count, the vertex
/// index triples of its triangles, numbered on from the meshes before it.
pub fn obj_face_indices(counts: &Vec<usize>) -> (r: Vec<Vec<(usize, usize, usize)>>)
    requires
        3 * triangles_before(counts@, counts@.len() as int) + 3 <= usize::MAX,
    ensures
        r@.len() == counts@.len(),
        forall|m: int| 0 <= m < counts@.len() ==> (#[trigger] r@[m])@.len() == counts@[m],
        forall|m: int, t: int|
            0 <= m < counts@.len() && 0 <= t < counts@[m] ==> {
                let f = #[trigger] r@[m]@[t];
                (f.0 as int, f.1 as int, f.2 as int) == obj_face(counts@, m, t)
            },
{
    let ghost c = counts@;
    let ghost total = triangles_before(c, c.len() as int);
    let mut out: Vec<Vec<(usize, usize, usize)>> = Vec::new();
    let mut next: usize = 1;
    let mut m: usize = 0;
    while m < counts.len()
        invariant
            c == counts@,
            m <= c.len(),
            3 * total + 3 <= usize::MAX,
            total == triangles_before(c, c.len() as int),
            next == 3 * triangles_before(c, m as int) + 1,
            out@.len() == m,
            forall|k: int| 0 <= k < m ==> (#[trigger] out@[k])@.len() == c[k],
            forall|k: int, t: int|
                0 <= k < m && 0 <= t < c[k] ==> {
                    let f = #[trigger] out@[k]@[t];
                    (f.0 as int, f.1 as int, f.2 as int) == obj_face(c, k, t)
                },
        decreases c.len() - m,
    {
        proof {
            lemma_triangles_before_monotone(c, m as int + 1, c.len() as int);
        }
        let mut faces: Vec<(usize, usize, usize)> = Vec::new();
        let mut t: usize = 0;
        while t < counts[m]
            invariant
                c == counts@,
                m < c.len(),
                3 * triangles_before(c, m as int + 1) + 3 <= usize::MAX,
                next == 3 * (triangles_before(c, m as int) + t) + 1,
                t <= c[m as int],
                faces@.len() == t,
                forall|u: int|
                    0 <= u < t ==> {
                        let f = #[trigger] faces@[u];
                        (f.0 as int, f.1 as int, f.2 as int) == obj_face(c, m as int, u)
                    },
            decreases c[m as int] - t,
        {
            faces.push((next, next + 1, next + 2));
            next = next + 3;
            t = t + 1;
        }
        out.push(faces);
        m = m + 1;
    }
    out
}

/// Name of the file stem of `path` (std `Path::file_stem`), as a function of the path.
pub uninterp spec fn spec_path_file_stem(path: Seq<char>) -> Option<Seq<char>>;

/// Stem of the file named by `path` (std `Path::file_stem`): the result is
/// `spec_path_file_stem` of the path; a `&str` path is valid UTF-8, so an existing stem
/// always converts to a string.
#[verifier::external_body]
fn path_file_stem(path: &str) -> (r: Option<String>)
    ensures
        match r {
            Some(s) => spec_path_file_stem(path@) == Some(s@),
            None => spec_path_file_stem(path@) is None,
        },
{
    std::path::Path::new(path).file_stem().and_then(|s| s.to_str()).map(|s| s.to_string())
}

/// Name of the material library for an OBJ file with stem `stem`: the stem with the
/// extension `.mtl`, or `model.mtl` when there is no stem.
pub fn mtl_name_for_stem(stem: Option<String>) -> (r: String)
    ensures
        r@ == match stem {
            Some(s) => s@ + ".mtl"@,
            None => "model.mtl"@,
        },
{
    match stem {
        Some(s) => {
            let mut r = s;
            r.append(".mtl");
            r
        },
        None => string_of("model.mtl"),
    }
}

/// File name of the material library written beside the OBJ file `obj_path`: its stem
/// with the extension `.mtl`, or `model.mtl` when the path names no file.
pub fn mtl_file_name(obj_path: &str) -> (r: String)
    ensures
        r@ == match spec_path_file_stem(obj_path@) {
            Some(stem) => stem + ".mtl"@,
            None => "model.mtl"@,
        },
{
    mtl_name_for_stem(path_file_stem(obj_path))
}

/// OBJ group name of an element: its type prefix, an underscore and the first eight
/// characters of its identifier text (all of them when it is shorter).
pub fn group_name(t: &ElementType, id_text: &str) -> (r: String)
    ensures
        r@ == spec_group_prefix(*t) + "_"@ + id_text@.take(if id_text@.len() < 8 { id_text@.len() as int } else { 8 }),
{
    let id = chars_of(id_text);
    let mut head: Vec<char> = Vec::new();
    let mut k: usize = 0;
    while k < id.len() && k < 8
        invariant
            k <= id@.len(),
            k <= 8,
            head@ == id@.take(k as int),
        decreases 8 - k,
    {
        head.push(id[k]);
        k = k + 1;
    }
    let mut r = string_of(group_prefix(t));
    r.append("_");
    let tail = string_from_chars(&head);
    r.append(tail.as_str());
    r
}

} // verus!
