//! The mapping of grid cells onto a terminal surface split into equal bands and segments.

use crate::grid::{cells_view, Cell};
use ratatui::layout::{Constraint, Direction, Flex, Layout, Rect};
use vstd::prelude::*;

verus! {

/// A rectangle of terminal cells.
#[derive(Debug, Clone, Copy, PartialEq, Eq, Structural)]
pub struct Region {
    pub x: u16,
    pub y: u16,
    pub width: u16,
    pub height: u16,
}

/// The direction along which a surface is split.
#[derive(Debug, Clone, Copy, PartialEq, Eq, Structural)]
pub enum Axis {
    /// Into bands stacked top to bottom.
    Vertical,
    /// Into segments side by side.
    Horizontal,
}

/// Relies on ratatui's `Layout::split` (default margin and spacing, legacy flex, which
/// stretches the last part over any remainder): it returns one rectangle per
/// constraint; a vertical split gives each the area's `x` and `width`, a horizontal
/// split the area's `y` and `height`.
#[verifier::external_body]
fn split_area(area: Region, axis: Axis, count: usize, percent: u16) -> (parts: Vec<Region>)
    ensures
        parts@.len() == count,
        forall|k: int|
            0 <= k < count && axis == Axis::Vertical ==> #[trigger] parts@[k].x == area.x
                && parts@[k].width == area.width,
        forall|k: int|
            0 <= k < count && axis == Axis::Horizontal ==> #[trigger] parts@[k].y == area.y
                && parts@[k].height == area.height,
{
    let direction = match axis {
        Axis::Vertical => Direction::Vertical,
        Axis::Horizontal => Direction::Horizontal,
    };
    let rect = Rect { x: area.x, y: area.y, width: area.width, height: area.height };
    let constraints = vec![Constraint::Percentage(percent); count];
    let rects = Layout::default().direction(direction).constraints(constraints).flex(Flex::Legacy).split(
        rect,
    );
    rects.iter().map(|r| Region { x: r.x, y: r.y, width: r.width, height: r.height }).collect()
}

/// The share of the surface, in percent, that each of `count` equal parts asks for.
pub fn equal_percentage(count: usize) -> (p: u16)
    ensures
        count == 0 ==> p == 100,
        count > 0 ==> p as int == 100int / (count as int),
{
    if count == 0 {
        100
    } else {
        let p: usize = 100 / count;
        assert(p <= 100) by (nonlinear_arith)
            requires
                p == 100int / (count as int),
                count > 0,
        ;
        p as u16
    }
}

/// The regions of a grid's cells: `rows` equal horizontal bands of `area`, each
/// split into `columns` equal segments. Row `i`, column `j` is segment `j` of band `i`.
pub fn screen_regions(area: Region, rows: usize, columns: usize) -> (regions: Vec<Vec<Region>>)
    ensures
        regions@.len() == rows,
        forall|i: int| 0 <= i < rows ==> #[trigger] regions@[i]@.len() == columns,
        forall|i: int, j: int|
            0 <= i < rows && 0 <= j < columns ==> (#[trigger] regions@[i]@[j]).y == regions@[i]@[0].y
                && regions@[i]@[j].height == regions@[i]@[0].height,
{
    let bands = split_area(area, Axis::Vertical, rows, equal_percentage(rows));
    let percent = equal_percentage(columns);
    let mut regions: Vec<Vec<Region>> = Vec::new();
    let mut i: usize = 0;
    while i < rows
        invariant
            bands@.len() == rows,
            i <= rows,
            regions@.len() == i,
            forall|k: int| 0 <= k < i ==> #[trigger] regions@[k]@.len() == columns,
            forall|k: int, j: int|
                0 <= k < i && 0 <= j < columns ==> (#[trigger] regions@[k]@[j]).y == bands@[k].y
                    && regions@[k]@[j].height == bands@[k].height,
        decreases rows - i,
    {
        let segments = split_area(bands[i], Axis::Horizontal, columns, percent);
        regions.push(segments);
        i = i + 1;
    }
    regions
}

/// The regions as rows of rectangles.
pub open spec fn region_rows(v: &Vec<Vec<Region>>) -> Seq<Seq<Region>> {
    Seq::new(v@.len(), |i: int| v@[i]@)
}

/// Position `p` lies in the span `(start, length)`.
pub open spec fn in_span(span: (int, int), p: int) -> bool {
    span.0 <= p < span.0 + span.1
}

/// The spans `(start, length)` follow each other, each starting where the one
/// before it ends, from `start` to `end`: no gap and no overlap.
pub open spec fn spans_tile(spans: Seq<(int, int)>, start: int, end: int) -> bool {
    &&& spans.len() > 0
    &&& spans[0].0 == start
    &&& forall|k: int| 0 < k < spans.len() ==> #[trigger] spans[k].0 == spans[k - 1].0 + spans[k - 1].1
    &&& spans[spans.len() - 1].0 + spans[spans.len() - 1].1 == end
    &&& forall|k: int| 0 <= k < spans.len() ==> #[trigger] spans[k].1 >= 0
}

/// The horizontal extents of a band's segments.
pub open spec fn segment_spans(row: Seq<Region>) -> Seq<(int, int)> {
    Seq::new(row.len(), |j: int| (row[j].x as int, row[j].width as int))
}

/// The vertical extents of the bands, read from each band's first segment.
pub open spec fn band_spans(regions: Seq<Seq<Region>>) -> Seq<(int, int)> {
    Seq::new(regions.len(), |i: int| (regions[i][0].y as int, regions[i][0].height as int))
}

/// A band whose segments share one vertical extent and tile the area's width.
pub open spec fn band_tiles(area: Region, row: Seq<Region>) -> bool {
    &&& spans_tile(segment_spans(row), area.x as int, area.x + area.width)
    &&& forall|j: int|
        0 <= j < row.len() ==> (#[trigger] row[j]).y == row[0].y && row[j].height == row[0].height
}

/// Bands that tile the area's height, each tiled by its segments.
pub open spec fn is_partition(area: Region, regions: Seq<Seq<Region>>) -> bool {
    &&& forall|i: int| 0 <= i < regions.len() ==> band_tiles(area, #[trigger] regions[i])
    &&& spans_tile(band_spans(regions), area.y as int, area.y + area.height)
}

/// Point `(px, py)` lies in the region.
pub open spec fn contains(r: Region, px: int, py: int) -> bool {
    r.x <= px < r.x + r.width && r.y <= py < r.y + r.height
}

proof fn lemma_spans_ordered(spans: Seq<(int, int)>, start: int, end: int, a: int, b: int)
    requires
        spans_tile(spans, start, end),
        0 <= a < b < spans.len(),
    ensures
        spans[a].0 + spans[a].1 <= spans[b].0,
    decreases b - a,
{
    if b > a + 1 {
        lemma_spans_ordered(spans, start, end, a, b - 1);
        assert(spans[b].0 == spans[b - 1].0 + spans[b - 1].1);
        assert(spans[b - 1].1 >= 0);
    } else {
        assert(spans[b].0 == spans[b - 1].0 + spans[b - 1].1);
    }
}

proof fn lemma_span_within(spans: Seq<(int, int)>, start: int, end: int, k: int)
    requires
        spans_tile(spans, start, end),
        0 <= k < spans.len(),
    ensures
        start <= spans[k].0,
        spans[k].0 + spans[k].1 <= end,
{
    let last = spans.len() - 1;
    assert(spans[0].1 >= 0);
    assert(spans[k].1 >= 0);
    assert(spans[last].1 >= 0);
    if k > 0 {
        lemma_spans_ordered(spans, start, end, 0, k);
    }
    if k < last {
        lemma_spans_ordered(spans, start, end, k, last);
    }
}

proof fn lemma_span_found(spans: Seq<(int, int)>, start: int, end: int, p: int, k: int) -> (j: int)
    requires
        spans_tile(spans, start, end),
        0 <= k < spans.len(),
        start <= p < spans[k].0 + spans[k].1,
    ensures
        0 <= j <= k,
        in_span(spans[j], p),
    decreases k,
{
    if p >= spans[k].0 {
        k
    } else {
        assert(spans[k].0 == spans[k - 1].0 + spans[k - 1].1);
        lemma_span_found(spans, start, end, p, k - 1)
    }
}

proof fn lemma_span_unique(spans: Seq<(int, int)>, start: int, end: int, p: int, a: int, b: int)
    requires
        spans_tile(spans, start, end),
        0 <= a < spans.len(),
        0 <= b < spans.len(),
        in_span(spans[a], p),
        in_span(spans[b], p),
    ensures
        a == b,
{
    if a < b {
        lemma_spans_ordered(spans, start, end, a, b);
    } else if b < a {
        lemma_spans_ordered(spans, start, end, b, a);
    }
}

/// When the bands tile the area's height and each band's segments tile its width,
/// every point of the area lies in exactly one region, and no point outside it in any.
pub proof fn lemma_partition_covers_once(area: Region, regions: Seq<Seq<Region>>, px: int, py: int)
    requires
        is_partition(area, regions),
    ensures
        contains(area, px, py) <==> exists|i: int, j: int|
            0 <= i < regions.len() && 0 <= j < regions[i].len() && contains(
                #[trigger] regions[i][j],
                px,
                py,
            ),
        forall|i1: int, j1: int, i2: int, j2: int|
            0 <= i1 < regions.len() && 0 <= j1 < regions[i1].len() && 0 <= i2 < regions.len() && 0
                <= j2 < regions[i2].len() && contains(#[trigger] regions[i1][j1], px, py) && contains(
                #[trigger] regions[i2][j2],
                px,
                py,
            ) ==> i1 == i2 && j1 == j2,
{
    let bands = band_spans(regions);
    let (y0, y1) = (area.y as int, area.y + area.height);
    let (x0, x1) = (area.x as int, area.x + area.width);
    if contains(area, px, py) {
        let i = lemma_span_found(bands, y0, y1, py, bands.len() - 1);
        assert(band_tiles(area, regions[i]));
        let segs = segment_spans(regions[i]);
        let j = lemma_span_found(segs, x0, x1, px, segs.len() - 1);
        assert(regions[i][j].y == regions[i][0].y);
        assert(contains(regions[i][j], px, py));
    }
    assert forall|i: int, j: int|
        0 <= i < regions.len() && 0 <= j < regions[i].len() && contains(
            #[trigger] regions[i][j],
            px,
            py,
        ) implies contains(area, px, py) by {
        assert(band_tiles(area, regions[i]));
        assert(regions[i][j].y == regions[i][0].y);
        lemma_span_within(bands, y0, y1, i);
        lemma_span_within(segment_spans(regions[i]), x0, x1, j);
    }
    assert forall|i1: int, j1: int, i2: int, j2: int|
        0 <= i1 < regions.len() && 0 <= j1 < regions[i1].len() && 0 <= i2 < regions.len() && 0
            <= j2 < regions[i2].len() && contains(#[trigger] regions[i1][j1], px, py) && contains(
            #[trigger] regions[i2][j2],
            px,
            py,
        ) implies i1 == i2 && j1 == j2 by {
        assert(band_tiles(area, regions[i1]));
        assert(band_tiles(area, regions[i2]));
        assert(regions[i1][j1].y == regions[i1][0].y);
        assert(regions[i2][j2].y == regions[i2][0].y);
        lemma_span_unique(bands, y0, y1, py, i1, i2);
        lemma_span_unique(segment_spans(regions[i1]), x0, x1, px, j1, j2);
    }
}

/// Whether the band's segments share one vertical extent and tile the area's width.
fn check_band(area: Region, row: &Vec<Region>) -> (r: bool)
    ensures
        r == band_tiles(area, row@),
{
    let ghost spans = segment_spans(row@);
    let m = row.len();
    if m == 0 {
        return false;
    }
    if row[0].x != area.x {
        return false;
    }
    let mut j: usize = 1;
    while j < m
        invariant
            spans == segment_spans(row@),
            1 <= j <= m,
            m == row@.len(),
            row@[0].x == area.x,
            forall|k: int| 0 < k < j ==> #[trigger] spans[k].0 == spans[k - 1].0 + spans[k - 1].1,
            forall|k: int|
                0 <= k < j ==> (#[trigger] row@[k]).y == row@[0].y && row@[k].height == row@[0].height,
        decreases m - j,
    {
        let prev = row[j - 1];
        let cur = row[j];
        if cur.x as u32 != prev.x as u32 + prev.width as u32 || cur.y != row[0].y || cur.height
            != row[0].height {
            assert(spans[j as int].0 == row@[j as int].x);
            assert(!(row@[j as int].y == row@[0].y && row@[j as int].height == row@[0].height)
                || !(spans[j as int].0 == spans[j - 1].0 + spans[j - 1].1));
            return false;
        }
        j = j + 1;
    }
    let last = row[m - 1];
    let r = last.x as u32 + last.width as u32 == area.x as u32 + area.width as u32;
    assert(forall|k: int| 0 <= k < spans.len() ==> #[trigger] spans[k].1 >= 0);
    r
}

/// Whether the regions partition the area: bands that tile its height, each tiled
/// by segments that share the band's vertical extent.
pub fn is_exact_partition(area: Region, regions: &Vec<Vec<Region>>) -> (r: bool)
    ensures
        r == is_partition(area, region_rows(regions)),
{
    let ghost rows = region_rows(regions);
    let ghost bands = band_spans(rows);
    let n = regions.len();
    if n == 0 {
        return false;
    }
    let mut i: usize = 0;
    while i < n
        invariant
            rows == region_rows(regions),
            bands == band_spans(rows),
            i <= n,
            n == rows.len(),
            forall|k: int| 0 <= k < i ==> band_tiles(area, #[trigger] rows[k]),
            forall|k: int| 0 <= k < i ==> #[trigger] rows[k].len() > 0,
            i > 0 ==> bands[0].0 == area.y,
            forall|k: int| 0 < k < i ==> #[trigger] bands[k].0 == bands[k - 1].0 + bands[k - 1].1,
        decreases n - i,
    {
        if !check_band(area, &regions[i]) {
            assert(!band_tiles(area, rows[i as int]));
            return false;
        }
        assert(rows[i as int].len() > 0);
        if i == 0 {
            if regions[0][0].y != area.y {
                return false;
            }
        } else {
            assert(rows[i - 1].len() > 0);
            let prev = regions[i - 1][0];
            if regions[i][0].y as u32 != prev.y as u32 + prev.height as u32 {
                assert(!(bands[i as int].0 == bands[i - 1].0 + bands[i - 1].1));
                return false;
            }
        }
        i = i + 1;
    }
    assert(rows[n - 1].len() > 0);
    let last = regions[n - 1][0];
    let r = last.y as u32 + last.height as u32 == area.y as u32 + area.height as u32;
    assert(forall|k: int| 0 <= k < bands.len() ==> #[trigger] bands[k].1 >= 0);
    r
}

/// The regions of the live cells of one row, among its first `k` cells, left to right.
pub open spec fn row_live_regions(cells: Seq<bool>, regions: Seq<Region>, k: int) -> Seq<Region>
    decreases k,
{
    if k <= 0 {
        seq![]
    } else if cells[k - 1] {
        row_live_regions(cells, regions, k - 1).push(regions[k - 1])
    } else {
        row_live_regions(cells, regions, k - 1)
    }
}

/// The regions of the live cells of the first `r` rows, in row-major order.
pub open spec fn grid_live_regions(cells: Seq<Seq<bool>>, regions: Seq<Seq<Region>>, r: int) -> Seq<
    Region,
>
    decreases r,
{
    if r <= 0 {
        seq![]
    } else {
        grid_live_regions(cells, regions, r - 1) + row_live_regions(
            cells[r - 1],
            regions[r - 1],
            cells[r - 1].len() as int,
        )
    }
}

/// The regions to fill: that of each live cell, in row-major order; dead cells
/// get none.
pub fn live_regions(cells: &Vec<Vec<Cell>>, regions: &Vec<Vec<Region>>) -> (fill: Vec<Region>)
    requires
        region_rows(regions).len() == cells_view(cells).len(),
        forall|i: int|
            0 <= i < cells_view(cells).len() ==> #[trigger] region_rows(regions)[i].len()
                == cells_view(cells)[i].len(),
    ensures
        fill@ == grid_live_regions(cells_view(cells), region_rows(regions), cells_view(cells).len() as int),
{
    let ghost cv = cells_view(cells);
    let ghost rv = region_rows(regions);
    let mut fill: Vec<Region> = Vec::new();
    let mut i: usize = 0;
    while i < cells.len()
        invariant
            cv == cells_view(cells),
            rv == region_rows(regions),
            rv.len() == cv.len(),
            forall|k: int| 0 <= k < cv.len() ==> #[trigger] rv[k].len() == cv[k].len(),
            i <= cv.len(),
            fill@ == grid_live_regions(cv, rv, i as int),
        decreases cv.len() - i,
    {
        let ghost before = fill@;
        let mut j: usize = 0;
        assert(rv[i as int].len() == cv[i as int].len());
        assert(rv[i as int] == regions@[i as int]@);
        while j < cells[i].len()
            invariant
                cv == cells_view(cells),
                rv == region_rows(regions),
                i < cv.len(),
                rv[i as int].len() == cv[i as int].len(),
                rv.len() == cv.len(),
                j <= cv[i as int].len(),
                fill@ == before + row_live_regions(cv[i as int], rv[i as int], j as int),
            decreases cv[i as int].len() - j,
        {
            assert(rv[i as int] == regions@[i as int]@);
            if cells[i][j].alive {
                fill.push(regions[i][j]);
                assert(fill@ =~= before + row_live_regions(cv[i as int], rv[i as int], j + 1));
            }
            j = j + 1;
        }
        i = i + 1;
    }
    fill
}

} // verus!
