use vstd::prelude::*;
use crate::raster::{GrayRaster, GrayView};

verus! {

/// A straight run of edge pixels found by the line tracer: it starts at `(x, y)` and
/// covers `length` pixels to the right (`horizontal`) or downwards; `wall_spacing` is
/// the pixel gap to a parallel partner line when the run is one line of a double wall.
#[derive(Debug, Clone, Copy, PartialEq, Eq)]
pub struct TracedRun {
    pub x: u32,
    pub y: u32,
    pub length: u32,
    pub horizontal: bool,
    pub wall_spacing: Option<u32>,
}

/// Shortest run the tracer keeps, in pixels.
pub const MIN_RUN_PX: u32 = 3;

/// A pixel brighter than this in the edge map is an edge pixel.
pub const EDGE_LEVEL: u8 = 128;

/// Pixel `(x, y)` belongs to an edge.
pub open spec fn is_edge(img: GrayView, x: int, y: int) -> bool {
    img.2[y * img.0 + x] > EDGE_LEVEL
}

/// Length of a scan line: a row (`horizontal`) or a column.
pub open spec fn line_len(img: GrayView, horizontal: bool) -> int {
    if horizontal {
        img.0 as int
    } else {
        img.1 as int
    }
}

/// Number of scan lines: rows (`horizontal`) or columns.
pub open spec fn line_count(img: GrayView, horizontal: bool) -> int {
    if horizontal {
        img.1 as int
    } else {
        img.0 as int
    }
}

/// Position `pos` of scan line `line` is an edge pixel.
pub open spec fn cell(img: GrayView, horizontal: bool, line: int, pos: int) -> bool {
    if horizontal {
        is_edge(img, pos, line)
    } else {
        is_edge(img, line, pos)
    }
}

/// Number of consecutive edge pixels of the scan line starting at `s`.
pub open spec fn extent(img: GrayView, horizontal: bool, line: int, s: int) -> nat
    decreases line_len(img, horizontal) - s,
{
    if s < 0 || s >= line_len(img, horizontal) || !cell(img, horizontal, line, s) {
        0
    } else {
        1 + extent(img, horizontal, line, s + 1)
    }
}

/// A run that the tracer keeps starts at `s`: `s` is the first edge pixel of a maximal
/// stretch of edge pixels at least `MIN_RUN_PX` long.
pub open spec fn starts_run(img: GrayView, horizontal: bool, line: int, s: int) -> bool {
    &&& 0 <= s < line_len(img, horizontal)
    &&& cell(img, horizontal, line, s)
    &&& (s == 0 || !cell(img, horizontal, line, s - 1))
    &&& extent(img, horizontal, line, s) >= MIN_RUN_PX
}

/// The run starting at position `s` of scan line `line`.
pub open spec fn run_at(img: GrayView, horizontal: bool, line: int, s: int) -> TracedRun {
    TracedRun {
        x: (if horizontal { s } else { line }) as u32,
        y: (if horizontal { line } else { s }) as u32,
        length: extent(img, horizontal, line, s) as u32,
        horizontal,
        wall_spacing: None,
    }
}

/// Positions `0, 1, ..., n - 1`.
pub open spec fn positions(n: int) -> Seq<int> {
    Seq::new(n as nat, |s: int| s)
}

/// The runs of scan line `line` that the tracer keeps, from left to right (top to
/// bottom): one per maximal stretch of at least `MIN_RUN_PX` edge pixels.
pub open spec fn line_runs(img: GrayView, horizontal: bool, line: int) -> Seq<TracedRun> {
    positions(line_len(img, horizontal)).filter(|s: int| starts_run(img, horizontal, line, s)).map_values(
        |s: int| run_at(img, horizontal, line, s),
    )
}

pub(crate) proof fn lemma_filter_step<A>(s: Seq<A>, pred: spec_fn(A) -> bool, k: int)
    requires
        0 <= k < s.len(),
    ensures
        s.take(k + 1).filter(pred) == if pred(s[k]) {
            s.take(k).filter(pred).push(s[k])
        } else {
            s.take(k).filter(pred)
        },
{
    reveal(Seq::filter);
    assert(s.take(k + 1).drop_last() == s.take(k));
    assert(s.take(k + 1).last() == s[k]);
}

pub(crate) proof fn lemma_filter_skip<A>(s: Seq<A>, pred: spec_fn(A) -> bool, a: int, b: int)
    requires
        0 <= a <= b <= s.len(),
        forall|k: int| a <= k < b ==> !pred(#[trigger] s[k]),
    ensures
        s.take(b).filter(pred) == s.take(a).filter(pred),
    decreases b - a,
{
    if a < b {
        lemma_filter_skip(s, pred, a, b - 1);
        lemma_filter_step(s, pred, b - 1);
    }
}

/// A stretch `[s, e)` of edge pixels that ends at the line's end or at a non-edge pixel
/// has extent `e - s`.
proof fn lemma_extent(img: GrayView, horizontal: bool, line: int, s: int, e: int)
    requires
        0 <= s <= e <= line_len(img, horizontal),
        forall|k: int| s <= k < e ==> #[trigger] cell(img, horizontal, line, k),
        e == line_len(img, horizontal) || !cell(img, horizontal, line, e),
    ensures
        extent(img, horizontal, line, s) == e - s,
    decreases e - s,
{
    if s < e {
        lemma_extent(img, horizontal, line, s + 1, e);
    }
}

fn cell_at(img: &GrayRaster, horizontal: bool, line: u32, pos: u32) -> (r: bool)
    requires
        img.wf(),
        line < line_count(img@, horizontal),
        pos < line_len(img@, horizontal),
    ensures
        r == cell(img@, horizontal, line as int, pos as int),
{
    if horizontal {
        img.get_pixel(pos, line) > EDGE_LEVEL
    } else {
        img.get_pixel(line, pos) > EDGE_LEVEL
    }
}

proof fn lemma_map_push(a: Seq<int>, x: int, f: spec_fn(int) -> TracedRun)
    ensures
        a.push(x).map_values(f) == a.map_values(f).push(f(x)),
{
    assert(a.push(x).map_values(f) =~= a.map_values(f).push(f(x)));
}

/// Appends to `out` the runs of scan line `line` (a row when `horizontal`, else a
/// column): every maximal stretch of at least `MIN_RUN_PX` edge pixels, in order.
fn scan_line(img: &GrayRaster, horizontal: bool, line: u32, out: &mut Vec<TracedRun>)
    requires
        img.wf(),
        line < line_count(img@, horizontal),
    ensures
        final(out)@ == old(out)@ + line_runs(img@, horizontal, line as int),
{
    let ghost im = img@;
    let ghost l = line as int;
    let ghost pred = |s: int| starts_run(im, horizontal, l, s);
    let ghost f = |s: int| run_at(im, horizontal, l, s);
    let len: u32 = if horizontal { img.width } else { img.height };
    let ghost ps = positions(len as int);
    let ghost base = out@;
    let mut run_start: Option<u32> = None;
    let mut pos: u32 = 0;
    while pos < len
        invariant
            im == img@,
            img.wf(),
            l == line as int,
            line < line_count(im, horizontal),
            len as int == line_len(im, horizontal),
            ps == positions(len as int),
            pred == (|s: int| starts_run(im, horizontal, l, s)),
            f == (|s: int| run_at(im, horizontal, l, s)),
            pos <= len,
            match run_start {
                Some(st) => {
                    &&& st < pos
                    &&& forall|k: int| st <= k < pos ==> #[trigger] cell(im, horizontal, l, k)
                    &&& (st == 0 || !cell(im, horizontal, l, st - 1))
                    &&& out@ == base + ps.take(st as int).filter(pred).map_values(f)
                },
                None => {
                    &&& (pos == 0 || !cell(im, horizontal, l, pos - 1))
                    &&& out@ == base + ps.take(pos as int).filter(pred).map_values(f)
                },
            },
        decreases len - pos,
    {
        let e = cell_at(img, horizontal, line, pos);
        match run_start {
            None => {
                if e {
                    run_start = Some(pos);
                } else {
                    proof {
                        lemma_filter_step(ps, pred, pos as int);
                    }
                }
            },
            Some(st) => {
                if !e {
                    proof {
                        lemma_extent(im, horizontal, l, st as int, pos as int);
                        lemma_filter_step(ps, pred, st as int);
                        assert forall|k: int| st + 1 <= k < pos implies !pred(#[trigger] ps[k]) by {
                            assert(cell(im, horizontal, l, k - 1));
                        }
                        lemma_filter_skip(ps, pred, st as int + 1, pos as int);
                        lemma_filter_step(ps, pred, pos as int);
                        lemma_map_push(ps.take(st as int).filter(pred), st as int, f);
                    }
                    if pos - st >= MIN_RUN_PX {
                        let run = if horizontal {
                            TracedRun { x: st, y: line, length: pos - st, horizontal, wall_spacing: None }
                        } else {
                            TracedRun { x: line, y: st, length: pos - st, horizontal, wall_spacing: None }
                        };
                        out.push(run);
                        assert(out@ == base + ps.take(pos as int + 1).filter(pred).map_values(f));
                    }
                    run_start = None;
                }
            },
        }
        pos = pos + 1;
    }
    if let Some(st) = run_start {
        proof {
            lemma_extent(im, horizontal, l, st as int, len as int);
            lemma_filter_step(ps, pred, st as int);
            assert forall|k: int| st + 1 <= k < len implies !pred(#[trigger] ps[k]) by {
                assert(cell(im, horizontal, l, k - 1));
            }
            lemma_filter_skip(ps, pred, st as int + 1, len as int);
            lemma_map_push(ps.take(st as int).filter(pred), st as int, f);
        }
        if len - st >= MIN_RUN_PX {
            let run = if horizontal {
                TracedRun { x: st, y: line, length: len - st, horizontal, wall_spacing: None }
            } else {
                TracedRun { x: line, y: st, length: len - st, horizontal, wall_spacing: None }
            };
            out.push(run);
        }
    }
    assert(ps.take(len as int) == ps);
}

proof fn lemma_extent_facts(img: GrayView, horizontal: bool, line: int, s: int)
    requires
        0 <= s <= line_len(img, horizontal),
    ensures
        s + extent(img, horizontal, line, s) <= line_len(img, horizontal),
        forall|p: int| s <= p < s + extent(img, horizontal, line, s) ==> #[trigger] cell(img, horizontal, line, p),
        s + extent(img, horizontal, line, s) == line_len(img, horizontal) || !cell(
            img,
            horizontal,
            line,
            s + extent(img, horizontal, line, s),
        ),
    decreases line_len(img, horizontal) - s,
{
    if s < line_len(img, horizontal) && cell(img, horizontal, line, s) {
        lemma_extent_facts(img, horizontal, line, s + 1);
    }
}

/// Every run kept on a scan line is a maximal stretch of edge pixels: it starts after a
/// non-edge pixel (or at the start of the line), all its pixels are edge pixels, it is
/// at least `MIN_RUN_PX` long, and it ends at a non-edge pixel or the end of the line.
pub proof fn lemma_line_runs_are_maximal(img: GrayView, horizontal: bool, line: int, k: int)
    requires
        0 <= line,
        0 <= k < line_runs(img, horizontal, line).len(),
    ensures
        ({
            let r = line_runs(img, horizontal, line)[k];
            let s = if horizontal { r.x as int } else { r.y as int };
            &&& r.horizontal == horizontal
            &&& (if horizontal { r.y as int } else { r.x as int }) == line as u32
            &&& 0 <= s && s + r.length <= line_len(img, horizontal)
            &&& r.length >= MIN_RUN_PX
            &&& (s == 0 || !cell(img, horizontal, line, s - 1))
            &&& forall|p: int| s <= p < s + r.length ==> #[trigger] cell(img, horizontal, line, p)
            &&& (s + r.length == line_len(img, horizontal) || !cell(img, horizontal, line, s + r.length))
        }),
{
    let pred = |s: int| starts_run(img, horizontal, line, s);
    let f = |s: int| run_at(img, horizontal, line, s);
    let ps = positions(line_len(img, horizontal));
    let starts = ps.filter(pred);
    ps.lemma_filter_pred(pred, k);
    let st = starts[k];
    assert(starts_run(img, horizontal, line, st));
    lemma_extent_facts(img, horizontal, line, st);
    assert(line_runs(img, horizontal, line)[k] == run_at(img, horizontal, line, st));
}

/// The kept runs of the first `k` scan lines, line after line.
pub open spec fn runs_upto(img: GrayView, horizontal: bool, k: int) -> Seq<TracedRun>
    decreases k,
{
    if k <= 0 {
        Seq::empty()
    } else {
        runs_upto(img, horizontal, k - 1) + line_runs(img, horizontal, k - 1)
    }
}

/// Every run the tracer keeps: the horizontal runs row by row from the top, then the
/// vertical runs column by column from the left.
pub open spec fn traced_runs(img: GrayView) -> Seq<TracedRun> {
    runs_upto(img, true, img.1 as int) + runs_upto(img, false, img.0 as int)
}

/// Collects the horizontal runs row by row, then the vertical runs column by column.
fn scan_all_lines(img: &GrayRaster) -> (r: Vec<TracedRun>)
    requires
        img.wf(),
    ensures
        r@ == traced_runs(img@),
{
    let mut out: Vec<TracedRun> = Vec::new();
    let mut y: u32 = 0;
    while y < img.height
        invariant
            img.wf(),
            y <= img.height,
            out@ == runs_upto(img@, true, y as int),
        decreases img.height - y,
    {
        scan_line(img, true, y, &mut out);
        y = y + 1;
    }
    let ghost rows = out@;
    let mut x: u32 = 0;
    while x < img.width
        invariant
            img.wf(),
            x <= img.width,
            rows == runs_upto(img@, true, img.height as int),
            out@ == rows + runs_upto(img@, false, x as int),
        decreases img.width - x,
    {
        scan_line(img, false, x, &mut out);
        proof {
            assert(rows + runs_upto(img@, false, x as int + 1) =~= rows + runs_upto(img@, false, x as int)
                + line_runs(img@, false, x as int));
        }
        x = x + 1;
    }
    out
}

/// Widest gap, in pixels, between the two lines of a double wall.
pub const MAX_WALL_GAP_PX: u32 = 20;

/// All pixels of the run lie on one row: a non-empty horizontal run, or a single pixel.
pub open spec fn on_one_row(r: TracedRun) -> bool {
    r.length >= 1 && (r.horizontal || r.length == 1)
}

/// Leftmost column of a run that lies on one row.
pub open spec fn left_x(r: TracedRun) -> int {
    r.x as int
}

/// Rightmost column of a run that lies on one row.
pub open spec fn right_x(r: TracedRun) -> int {
    if r.horizontal {
        r.x + r.length - 1
    } else {
        r.x as int
    }
}

/// Distance between two rows.
pub open spec fn row_gap(a: TracedRun, b: TracedRun) -> int {
    if a.y >= b.y {
        a.y - b.y
    } else {
        b.y - a.y
    }
}

/// Two runs form a double wall when both lie on one row each, the rows are between 1
/// and `MAX_WALL_GAP_PX` apart, their column ranges overlap, and the overlap covers
/// at least half the width of `a` (its rightmost minus leftmost column, which must be
/// positive); the wall spacing is then the row gap.
pub open spec fn pair_spacing(a: TracedRun, b: TracedRun) -> Option<u32> {
    let gap = row_gap(a, b);
    let start = if left_x(a) >= left_x(b) { left_x(a) } else { left_x(b) };
    let end = if right_x(a) <= right_x(b) { right_x(a) } else { right_x(b) };
    let a_width = right_x(a) - left_x(a);
    if on_one_row(a) && on_one_row(b) && 0 < gap <= MAX_WALL_GAP_PX && end > start && a_width > 0 && 2 * (end
        - start) >= a_width {
        Some(gap as u32)
    } else {
        None
    }
}

/// Spacing from the last partner `j` with `k < j < j_end` that forms a double wall with run
/// `k` (taking `k` first).
pub open spec fn last_partner_after(runs: Seq<TracedRun>, k: int, j_end: int) -> Option<u32>
    decreases j_end - k,
{
    if j_end <= k + 1 {
        None
    } else {
        match pair_spacing(runs[k], runs[j_end - 1]) {
            Some(g) => Some(g),
            None => last_partner_after(runs, k, j_end - 1),
        }
    }
}

/// Spacing from the last partner `i < i_end` that forms a double wall with run `k`
/// (taking `i` first).
pub open spec fn last_partner_before(runs: Seq<TracedRun>, k: int, i_end: int) -> Option<u32>
    decreases i_end,
{
    if i_end <= 0 {
        None
    } else {
        match pair_spacing(runs[i_end - 1], runs[k]) {
            Some(g) => Some(g),
            None => last_partner_before(runs, k, i_end - 1),
        }
    }
}

/// `a` if present, else `b`.
pub open spec fn or_else(a: Option<u32>, b: Option<u32>) -> Option<u32> {
    match a {
        Some(g) => Some(g),
        None => b,
    }
}

/// Wall spacing of run `k` once every pair `(i, j)`, `i < j`, has been examined in
/// order of `i`, then `j`, each double-wall pair writing its spacing to both runs: the
/// spacing of the last such pair involving `k`, or the spacing `k` had before.
pub open spec fn spacing_after_scan(runs: Seq<TracedRun>, k: int) -> Option<u32> {
    or_else(
        last_partner_after(runs, k, runs.len() as int),
        or_else(last_partner_before(runs, k, k), runs[k].wall_spacing),
    )
}

/// `r` is `base` with only the wall spacing replaced by `ws`.
pub open spec fn with_spacing(base: TracedRun, ws: Option<u32>) -> TracedRun {
    TracedRun { wall_spacing: ws, ..base }
}

/// Every run with its wall spacing after the double-wall scan.
pub open spec fn double_lines_marked(runs: Seq<TracedRun>) -> Seq<TracedRun> {
    Seq::new(runs.len(), |k: int| with_spacing(runs[k], spacing_after_scan(runs, k)))
}

fn pair_spacing_of(a: TracedRun, b: TracedRun) -> (r: Option<u32>)
    ensures
        r == pair_spacing(a, b),
{
    if !(a.length >= 1 && (a.horizontal || a.length == 1)) || !(b.length >= 1 && (b.horizontal || b.length
        == 1)) {
        return None;
    }
    let gap: u32 = if a.y >= b.y { a.y - b.y } else { b.y - a.y };
    if gap == 0 || gap > MAX_WALL_GAP_PX {
        return None;
    }
    let al: u64 = a.x as u64;
    let ar: u64 = if a.horizontal { a.x as u64 + a.length as u64 - 1 } else { a.x as u64 };
    let bl: u64 = b.x as u64;
    let br: u64 = if b.horizontal { b.x as u64 + b.length as u64 - 1 } else { b.x as u64 };
    let start = if al >= bl { al } else { bl };
    let end = if ar <= br { ar } else { br };
    if end <= start {
        return None;
    }
    let a_width = ar - al;
    if a_width == 0 {
        return None;
    }
    if 2 * (end - start) >= a_width {
        Some(gap)
    } else {
        None
    }
}

/// Marks double walls: for every pair of runs `(i, j)`, `i < j`, taken in order of `i`,
/// then `j`, that lie on rows between 1 and `MAX_WALL_GAP_PX` apart and overlap over at
/// least half the width of run `i`, both runs get the row gap as wall spacing.
pub fn detect_double_lines(runs: &mut Vec<TracedRun>)
    ensures
        final(runs)@ == double_lines_marked(old(runs)@),
{
    let ghost o = runs@;
    let n = runs.len();
    let mut i: usize = 0;
    while i < n
        invariant
            n == o.len(),
            runs@.len() == n,
            i <= n,
            forall|k: int| 0 <= k < i ==> #[trigger] runs@[k] == with_spacing(o[k], spacing_after_scan(o, k)),
            forall|k: int|
                i <= k < n ==> #[trigger] runs@[k] == with_spacing(
                    o[k],
                    or_else(last_partner_before(o, k, i as int), o[k].wall_spacing),
                ),
        decreases n - i,
    {
        let mut j: usize = i + 1;
        while j < n
            invariant
                n == o.len(),
                runs@.len() == n,
                i < n,
                i + 1 <= j <= n,
                forall|k: int| 0 <= k < i ==> #[trigger] runs@[k] == with_spacing(o[k], spacing_after_scan(o, k)),
                runs@[i as int] == with_spacing(
                    o[i as int],
                    or_else(
                        last_partner_after(o, i as int, j as int),
                        or_else(last_partner_before(o, i as int, i as int), o[i as int].wall_spacing),
                    ),
                ),
                forall|k: int|
                    i < k < j ==> #[trigger] runs@[k] == with_spacing(
                        o[k],
                        or_else(last_partner_before(o, k, i + 1), o[k].wall_spacing),
                    ),
                forall|k: int|
                    j <= k < n ==> #[trigger] runs@[k] == with_spacing(
                        o[k],
                        or_else(last_partner_before(o, k, i as int), o[k].wall_spacing),
                    ),
            decreases n - j,
        {
            let a = runs[i];
            let b = runs[j];
            let sp = pair_spacing_of(a, b);
            assert(pair_spacing(a, b) == pair_spacing(o[i as int], o[j as int]));
            match sp {
                Some(g) => {
                    let mut na = a;
                    na.wall_spacing = Some(g);
                    let mut nb = b;
                    nb.wall_spacing = Some(g);
                    runs.set(i, na);
                    runs.set(j, nb);
                },
                None => {},
            }
            j = j + 1;
        }
        assert forall|k: int| 0 <= k < i + 1 implies #[trigger] runs@[k] == with_spacing(o[k], spacing_after_scan(o, k)) by {
            if k == i {
                assert(j == n);
            }
        }
        i = i + 1;
    }
    assert(runs@ =~= double_lines_marked(o));
}

/// Extracts the runs of a binary edge map (horizontal runs row by row, then vertical
/// runs column by column, each a maximal stretch of at least `MIN_RUN_PX` edge pixels)
/// and marks the double walls among them.
pub fn extract_segments(edges: &GrayRaster) -> (r: Vec<TracedRun>)
    requires
        edges.wf(),
    ensures
        r@ == double_lines_marked(traced_runs(edges@)),
{
    let mut runs = scan_all_lines(edges);
    detect_double_lines(&mut runs);
    runs
}

/// Pixel `(x, y)` lies inside the raster and is non-zero.
pub open spec fn lit(img: GrayView, x: int, y: int) -> bool {
    0 <= x < img.0 && 0 <= y < img.1 && img.2[y * img.0 + x] != 0
}

/// Value of pixel `(x, y)` after dilation with radius 1 in the L1 norm: 255 when the pixel
/// or one of its four neighbours is non-zero, else 0.
pub open spec fn dilated_pixel(img: GrayView, x: int, y: int) -> u8 {
    if lit(img, x, y) || lit(img, x - 1, y) || lit(img, x + 1, y) || lit(img, x, y - 1) || lit(img, x, y + 1) {
        255
    } else {
        0
    }
}

/// The raster dilated with radius 1 in the L1 norm.
pub open spec fn dilated(img: GrayView) -> GrayView {
    (img.0, img.1, Seq::new((img.0 * img.1) as nat, |i: int| dilated_pixel(img, i % (img.0 as int), i / (img.0 as int))))
}

/// Calls `imageproc::morphology::dilate` with `Norm::L1` and radius 1, which sets to 255
/// every pixel within L1 distance 1 of a non-zero pixel and every other pixel to 0. The
/// distance transform behind it adds width and height as `u32`, so the sum must fit.
#[verifier::external_body]
fn dilate_l1(img: &GrayRaster) -> (r: GrayRaster)
    requires
        img.wf(),
        img.width as int + img.height as int <= u32::MAX,
    ensures
        r@ == dilated(img@),
{
    let buf = image::GrayImage::from_raw(img.width, img.height, img.data.clone()).expect("raster size");
    let out = imageproc::morphology::dilate(&buf, imageproc::distance_transform::Norm::L1, 1);
    GrayRaster { width: img.width, height: img.height, data: out.into_raw() }
}

/// Traces a Canny edge map: thickens the edges by dilation with radius 1 (L1 norm),
/// then extracts the runs and marks the double walls. Width plus height must fit in a
/// `u32` (the dilation adds them).
pub fn trace_edge_map(edges: &GrayRaster) -> (r: Vec<TracedRun>)
    requires
        edges.wf(),
        edges.width as int + edges.height as int <= u32::MAX,
    ensures
        r@ == double_lines_marked(traced_runs(dilated(edges@))),
{
    let thick = dilate_l1(edges);
    assert(thick.wf());
    extract_segments(&thick)
}

} // verus!
