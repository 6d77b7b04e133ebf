use blueprint2mod::blueprint::ElementType;
use blueprint2mod::mesh::{
    box_triangle_corners, extrusion_for, group_name, group_prefix, material_name, materials_in_order,
    meshed_element_indices, mtl_file_name, mtl_name_for_stem, obj_face_indices, Extrusion,
};

const ALL_TYPES: [ElementType; 10] = [
    ElementType::Wall,
    ElementType::Door,
    ElementType::Window,
    ElementType::SlidingDoor,
    ElementType::Fireplace,
    ElementType::Closet,
    ElementType::Staircase,
    ElementType::Chimney,
    ElementType::Courtyard,
    ElementType::Unclassified,
];

#[test]
fn all_element_types_have_materials() {
    for et in &ALL_TYPES {
        assert!(!material_name(et).is_empty());
    }
}

#[test]
fn box_triangles_produces_twelve_triangles() {
    let tris = box_triangle_corners();
    assert_eq!(tris.len(), 12, "a box should have 12 triangles");
}

#[test]
fn material_names_are_distinct() {
    for (i, a) in ALL_TYPES.iter().enumerate() {
        for b in ALL_TYPES.iter().skip(i + 1) {
            assert_ne!(material_name(a), material_name(b));
        }
    }
    assert_eq!(material_name(&ElementType::SlidingDoor), "mat_sliding_door");
    assert_eq!(group_prefix(&ElementType::SlidingDoor), "sliding_door");
}

fn corner(c: usize) -> [i64; 3] {
    let ux = matches!(c, 1 | 2 | 5 | 6);
    let uy = c >= 4;
    let uz = matches!(c, 2 | 3 | 6 | 7);
    [if ux { 3 } else { 1 }, if uy { 7 } else { 2 }, if uz { 11 } else { 5 }]
}

#[test]
fn box_triangles_wind_counter_clockwise_from_outside() {
    for t in box_triangle_corners() {
        let (a, b, c) = t.corners;
        let (pa, pb, pc) = (corner(a), corner(b), corner(c));
        let u = [pb[0] - pa[0], pb[1] - pa[1], pb[2] - pa[2]];
        let v = [pc[0] - pa[0], pc[1] - pa[1], pc[2] - pa[2]];
        let n = [u[1] * v[2] - u[2] * v[1], u[2] * v[0] - u[0] * v[2], u[0] * v[1] - u[1] * v[0]];
        let normal = [t.normal.0 as i64, t.normal.1 as i64, t.normal.2 as i64];
        for axis in 0..3 {
            if normal[axis] == 0 {
                assert_eq!(n[axis], 0);
            } else {
                assert!(n[axis] * normal[axis] > 0, "triangle {:?}", t);
            }
        }
    }
}

#[test]
fn extrusion_per_type() {
    assert_eq!(extrusion_for(&ElementType::Door), None);
    assert_eq!(extrusion_for(&ElementType::SlidingDoor), None);
    assert_eq!(extrusion_for(&ElementType::Wall), Some(Extrusion::FullHeight));
    assert_eq!(extrusion_for(&ElementType::Closet), Some(Extrusion::FullHeight));
    assert_eq!(extrusion_for(&ElementType::Unclassified), None);
    assert_eq!(extrusion_for(&ElementType::Chimney), Some(Extrusion::Chimney));
    assert_eq!(extrusion_for(&ElementType::Staircase), Some(Extrusion::HalfHeight));
    assert_eq!(extrusion_for(&ElementType::Window), Some(Extrusion::Window));
    assert_eq!(extrusion_for(&ElementType::Fireplace), Some(Extrusion::Hearth));
    assert_eq!(extrusion_for(&ElementType::Courtyard), Some(Extrusion::Recessed));
}

#[test]
fn only_solid_classified_elements_get_meshes_in_order() {
    let types = vec![
        ElementType::Wall,
        ElementType::Door,
        ElementType::Window,
        ElementType::Unclassified,
        ElementType::SlidingDoor,
        ElementType::Closet,
        ElementType::Courtyard,
    ];
    assert_eq!(meshed_element_indices(&types), vec![0, 2, 5, 6]);
    assert_eq!(meshed_element_indices(&ALL_TYPES.to_vec()), vec![0, 2, 4, 5, 6, 7, 8]);
    assert!(meshed_element_indices(&Vec::new()).is_empty());
}

#[test]
fn materials_listed_once_in_first_use_order() {
    let types = vec![
        ElementType::Window,
        ElementType::Wall,
        ElementType::Window,
        ElementType::Closet,
        ElementType::Wall,
    ];
    assert_eq!(
        materials_in_order(&types),
        vec![ElementType::Window, ElementType::Wall, ElementType::Closet]
    );
    assert!(materials_in_order(&vec![]).is_empty());
}

#[test]
fn face_indices_continue_across_meshes() {
    let faces = obj_face_indices(&vec![2, 0, 1]);
    assert_eq!(faces.len(), 3);
    assert_eq!(faces[0], vec![(1, 2, 3), (4, 5, 6)]);
    assert!(faces[1].is_empty());
    assert_eq!(faces[2], vec![(7, 8, 9)]);
}

#[test]
fn mtl_file_name_from_obj_path() {
    assert_eq!(mtl_file_name("/tmp/out/house.obj"), "house.mtl");
    assert_eq!(mtl_file_name("plan"), "plan.mtl");
    assert_eq!(mtl_file_name("a.b.obj"), "a.b.mtl");
    assert_eq!(mtl_file_name("/"), "model.mtl");
}

#[test]
fn group_names_take_eight_id_characters() {
    assert_eq!(
        group_name(&ElementType::Wall, "1234abcd-0000-4000-8000-000000000000"),
        "wall_1234abcd"
    );
    assert_eq!(group_name(&ElementType::Courtyard, "abc"), "courtyard_abc");
}

#[test]
fn mtl_name_from_stem() {
    assert_eq!(mtl_name_for_stem(Some("house".to_string())), "house.mtl");
    assert_eq!(mtl_name_for_stem(None), "model.mtl");
}
