use blueprint2mod::raster::GrayRaster;
use blueprint2mod::tracing::{detect_double_lines, extract_segments, trace_edge_map, TracedRun};

fn raster(width: u32, height: u32, lit: &[(u32, u32)]) -> GrayRaster {
    let mut data = vec![0u8; (width * height) as usize];
    for &(x, y) in lit {
        data[(y * width + x) as usize] = 255;
    }
    GrayRaster { width, height, data }
}

fn run(x: u32, y: u32, length: u32, horizontal: bool) -> TracedRun {
    TracedRun { x, y, length, horizontal, wall_spacing: None }
}

#[test]
fn blank_edge_map_traces_nothing() {
    let blank = raster(100, 100, &[]);
    assert!(trace_edge_map(&blank).is_empty());
}

#[test]
fn horizontal_runs_of_three_or_more_are_kept() {
    // Row 1: pixels 0..=3 (length 4) and 6..=7 (length 2, dropped).
    let img = raster(8, 3, &[(0, 1), (1, 1), (2, 1), (3, 1), (6, 1), (7, 1)]);
    let runs = extract_segments(&img);
    assert_eq!(runs, vec![run(0, 1, 4, true)]);
}

#[test]
fn runs_touching_the_far_edge_are_closed() {
    let img = raster(5, 1, &[(2, 0), (3, 0), (4, 0)]);
    assert_eq!(extract_segments(&img), vec![run(2, 0, 3, true)]);
}

#[test]
fn vertical_runs_follow_horizontal_runs() {
    // A 3x3 block: three horizontal runs (rows 0..3) then three vertical runs.
    let lit: Vec<(u32, u32)> = (0..3).flat_map(|y| (0..3).map(move |x| (x, y))).collect();
    let img = raster(3, 3, &lit);
    let runs = extract_segments(&img);
    let plain: Vec<(u32, u32, u32, bool)> = runs.iter().map(|r| (r.x, r.y, r.length, r.horizontal)).collect();
    assert_eq!(
        plain,
        vec![
            (0, 0, 3, true),
            (0, 1, 3, true),
            (0, 2, 3, true),
            (0, 0, 3, false),
            (1, 0, 3, false),
            (2, 0, 3, false),
        ]
    );
    // Rows pair up as double walls; each run keeps the spacing of its last pair
    // in scan order: (0,1) then (0,2) for row 0, (1,2) for rows 1 and 2.
    assert_eq!(runs[0].wall_spacing, Some(2));
    assert_eq!(runs[1].wall_spacing, Some(1));
    assert_eq!(runs[2].wall_spacing, Some(1));
    assert_eq!(runs[3].wall_spacing, None);
}

#[test]
fn edge_map_is_dilated_before_tracing() {
    // A single lit pixel grows into a plus shape: a horizontal and a vertical run of 3.
    let img = raster(5, 5, &[(2, 2)]);
    let runs = trace_edge_map(&img);
    let plain: Vec<(u32, u32, u32, bool)> = runs.iter().map(|r| (r.x, r.y, r.length, r.horizontal)).collect();
    assert_eq!(plain, vec![(1, 2, 3, true), (2, 1, 3, false)]);
}

#[test]
fn double_line_needs_overlap_of_half_the_first_run() {
    let mut runs = vec![run(0, 10, 11, true), run(5, 15, 11, true), run(0, 40, 11, true)];
    detect_double_lines(&mut runs);
    // Runs 0 and 1: gap 5, overlap [5, 10] = 5 of width 10 -> half -> double wall.
    assert_eq!(runs[0].wall_spacing, Some(5));
    assert_eq!(runs[1].wall_spacing, Some(5));
    // Run 2 is 25 rows away from run 1 and 30 from run 0: too far.
    assert_eq!(runs[2].wall_spacing, None);
}

#[test]
fn double_line_rejects_small_overlap_and_same_row() {
    let mut runs = vec![run(0, 10, 11, true), run(6, 12, 11, true), run(20, 10, 5, true)];
    detect_double_lines(&mut runs);
    // Overlap [6, 10] = 4 < 10 / 2.
    assert_eq!(runs[0].wall_spacing, None);
    assert_eq!(runs[1].wall_spacing, None);
    assert_eq!(runs[2].wall_spacing, None);
}

#[test]
fn last_partner_wins() {
    // Run 1 pairs with run 0 (gap 3) and then with run 2 (gap 4): the later pair wins.
    let mut runs = vec![run(0, 0, 10, true), run(0, 3, 10, true), run(0, 7, 10, true)];
    detect_double_lines(&mut runs);
    assert_eq!(runs[0].wall_spacing, Some(7));
    assert_eq!(runs[1].wall_spacing, Some(4));
    assert_eq!(runs[2].wall_spacing, Some(4));
}

#[test]
fn vertical_runs_are_never_double_walls() {
    let mut runs = vec![run(0, 0, 10, false), run(0, 3, 10, false)];
    detect_double_lines(&mut runs);
    assert_eq!(runs[0].wall_spacing, None);
    assert_eq!(runs[1].wall_spacing, None);
}
