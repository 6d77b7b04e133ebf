use blueprint2mod::blueprint::ElementType;
use blueprint2mod::merge::{
    distinct_in_order, endpoints_within_gap, groups_by_root, merge_groups, merge_outline, uf_find, MergeGroup,
    OutElement, OutSegment,
};

fn aligned_all(n: usize) -> Vec<Vec<bool>> {
    vec![vec![true; n]; n]
}

#[test]
fn find_follows_parents_to_the_root() {
    let parent = vec![0usize, 0, 1, 3, 3, 2];
    assert_eq!(uf_find(&parent, 5), 0);
    assert_eq!(uf_find(&parent, 2), 0);
    assert_eq!(uf_find(&parent, 4), 3);
    assert_eq!(uf_find(&parent, 3), 3);
}

#[test]
fn same_type_aligned_elements_form_one_group() {
    let types = vec![ElementType::Wall, ElementType::Wall, ElementType::Wall];
    let parent = merge_groups(&types, &aligned_all(3));
    assert_eq!(parent, vec![0, 0, 0]);
    let groups = groups_by_root(&parent);
    assert_eq!(groups, vec![MergeGroup { root: 0, members: vec![0, 1, 2] }]);
}

#[test]
fn different_types_never_merge() {
    let types = vec![ElementType::Wall, ElementType::Door];
    let parent = merge_groups(&types, &aligned_all(2));
    assert_eq!(parent, vec![0, 1]);
    let groups = groups_by_root(&parent);
    assert_eq!(groups.len(), 2);
}

#[test]
fn unaligned_elements_stay_apart() {
    let types = vec![ElementType::Wall, ElementType::Wall];
    let aligned = vec![vec![false, false], vec![false, false]];
    assert_eq!(merge_groups(&types, &aligned), vec![0, 1]);
}

#[test]
fn chains_merge_transitively_and_later_roots_link_under_earlier_pairs() {
    // Pairs in scan order: (0,2) links root 2 under 0; (1,2) links root 0 under 1.
    let types = vec![ElementType::Wall; 3];
    let aligned = vec![
        vec![false, false, true],
        vec![false, false, true],
        vec![false, false, false],
    ];
    let parent = merge_groups(&types, &aligned);
    assert_eq!(parent, vec![1, 1, 0]);
    assert_eq!(uf_find(&parent, 2), 1);
    let groups = groups_by_root(&parent);
    assert_eq!(groups, vec![MergeGroup { root: 1, members: vec![0, 1, 2] }]);
}

#[test]
fn groups_listed_by_first_member() {
    let types = vec![
        ElementType::Window,
        ElementType::Wall,
        ElementType::Window,
        ElementType::Wall,
    ];
    let parent = merge_groups(&types, &aligned_all(4));
    let groups = groups_by_root(&parent);
    assert_eq!(
        groups,
        vec![
            MergeGroup { root: 0, members: vec![0, 2] },
            MergeGroup { root: 1, members: vec![1, 3] },
        ]
    );
}

#[test]
fn distinct_values_in_first_order() {
    assert_eq!(distinct_in_order(&vec![3, 1, 3, 2, 1]), vec![3, 1, 2]);
}

#[test]
fn every_element_is_in_exactly_one_group() {
    let types = vec![ElementType::Wall, ElementType::Door, ElementType::Wall, ElementType::Door, ElementType::Window];
    let parent = merge_groups(&types, &aligned_all(5));
    let groups = groups_by_root(&parent);
    for x in 0..types.len() {
        let holding: Vec<&MergeGroup> = groups.iter().filter(|g| g.members.contains(&x)).collect();
        assert_eq!(holding.len(), 1);
        assert_eq!(holding[0].root, uf_find(&parent, x));
    }
}

// In the three tests below the segments are horizontal, so the angle half of the merge
// test (within 2 degrees, computed on floats outside the library) holds; the endpoint
// gap half is the library's `endpoints_within_gap`.

fn aligned_pair(a: ((u32, u32), (u32, u32)), b: ((u32, u32), (u32, u32))) -> Vec<Vec<bool>> {
    let close = endpoints_within_gap(a.0, a.1, b.0, b.1);
    vec![vec![false, close], vec![false, false]]
}

#[test]
fn collinear_walls_within_tolerance_are_merged() {
    // Two horizontal walls separated by a 5-pixel gap.
    let types = vec![ElementType::Wall, ElementType::Wall];
    let aligned = aligned_pair(((0, 10), (50, 10)), ((55, 10), (100, 10)));
    let outline = merge_outline(&types, &aligned, &vec![vec![11], vec![22]], &vec![11, 22]);
    assert_eq!(outline.elements.len(), 1, "two collinear walls should merge into one");
    assert_eq!(outline.segments.len(), 1, "merged segment count should be 1");
    assert_eq!(outline.elements, vec![OutElement::Merged(0)]);
    assert_eq!(outline.segments, vec![OutSegment::Merged(0)]);
}

#[test]
fn parallel_walls_too_far_apart_not_merged() {
    // Two horizontal walls 50 pixels apart vertically.
    let types = vec![ElementType::Wall, ElementType::Wall];
    let aligned = aligned_pair(((0, 0), (100, 0)), ((0, 50), (100, 50)));
    let outline = merge_outline(&types, &aligned, &vec![vec![11], vec![22]], &vec![11, 22]);
    assert_eq!(outline.elements.len(), 2, "parallel walls with large gap should stay separate");
    assert_eq!(outline.segments.len(), 2);
}

#[test]
fn cross_type_segments_not_merged() {
    // A Wall and a Door only 2 pixels apart.
    let types = vec![ElementType::Wall, ElementType::Door];
    let aligned = aligned_pair(((0, 10), (50, 10)), ((52, 10), (100, 10)));
    let outline = merge_outline(&types, &aligned, &vec![vec![11], vec![22]], &vec![11, 22]);
    assert_eq!(outline.elements.len(), 2, "Wall and Door must not be merged even if collinear");
    assert_eq!(outline.segments.len(), 2);
}

#[test]
fn endpoint_gap_limit_is_ten_pixels() {
    // Exactly 10 px apart (a 6-8-10 triangle) qualifies; 11 px does not.
    assert!(endpoints_within_gap((0, 0), (50, 0), (56, 8), (100, 8)));
    assert!(endpoints_within_gap((0, 0), (50, 0), (60, 0), (100, 0)));
    assert!(!endpoints_within_gap((0, 0), (50, 0), (61, 0), (100, 0)));
    assert!(!endpoints_within_gap((0, 0), (50, 0), (57, 8), (100, 8)));
    // Any of the four endpoint pairings counts: b runs backwards towards a's start.
    assert!(endpoints_within_gap((20, 0), (60, 0), (200, 0), (25, 3)));
    // Far-apart coordinates near the top of the range do not overflow.
    assert!(!endpoints_within_gap((0, 0), (1, 1), (u32::MAX, u32::MAX), (u32::MAX - 1, u32::MAX)));
    assert!(endpoints_within_gap((u32::MAX, 0), (u32::MAX - 5, 0), (u32::MAX - 9, 0), (u32::MAX - 40, 0)));
}

#[test]
fn outline_keeps_lone_elements_and_unreferenced_segments() {
    let types = vec![ElementType::Wall, ElementType::Window, ElementType::Wall];
    let aligned = vec![vec![false, true, true], vec![false, false, false], vec![false, false, false]];
    // Segment 99 belongs to no element; element 1 refers to a missing segment 77 too.
    let sources = vec![vec![10], vec![20, 77], vec![30]];
    let ids = vec![10, 99, 20, 30];
    let outline = merge_outline(&types, &aligned, &sources, &ids);
    assert_eq!(outline.elements, vec![OutElement::Merged(0), OutElement::Kept(1)]);
    assert_eq!(
        outline.segments,
        vec![OutSegment::Merged(0), OutSegment::Kept(2), OutSegment::Kept(1)]
    );
}
