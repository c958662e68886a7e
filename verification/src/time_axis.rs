//! The time axis: which timestamps get a marker, in which column, and the two
//! blocks of text that show them above and below the sparkline. The markers
//! are chosen among the timestamps in the order of time, whatever order the
//! scan found them in.

use crate::arith::{div_ceil, lemma_quotients_ordered, lemma_scaled_bounds, lemma_scaled_monotonic,
    scale_ceil};
use crate::chronology::{chronological, lemma_chronological, lemma_chronological_is_order_free,
    sort_timestamps};
use crate::datetime::{format_timestamp, timestamp_label};
use crate::time_marker::{blank_grid, grid_text, Canvas, TimeMarker, TimestampLocation};
use vstd::arithmetic::div_mod::lemma_small_mod;
use vstd::prelude::*;

verus! {

/// The column of marker `k` out of `count`, on a line of `width` columns. The
/// first marker stands in the first column and the last in the last; those
/// between divide the columns between the two edges evenly, each rounded up.
pub open spec fn marker_offset(k: int, count: int, width: int) -> int {
    if k == 0 {
        0
    } else if k == count - 1 {
        width - 1
    } else {
        div_ceil(k * (width - 2), count - 1) % width
    }
}

/// The index of the timestamp that marker `k` out of `count` shows, among
/// `total` timestamps in the order of time: evenly spaced by index, each
/// rounded up.
pub open spec fn marker_timestamp_index(k: int, total: int, count: int) -> int {
    div_ceil(k * total, count)
}

/// How many of `count` markers stand below the sparkline: half of them,
/// raised to an even number. The first markers are those.
pub open spec fn footer_marker_count(count: int) -> int {
    let half = count / 2;
    if half % 2 != 0 {
        half + 1
    } else {
        half
    }
}

/// The timestamp that marker `k` out of `count` shows: the timestamps are
/// put in the order of time, whatever order they are given in, and the
/// markers take theirs at evenly spaced positions, the earliest first.
pub open spec fn marker_timestamp(timestamps: Seq<i64>, count: int, k: int) -> i64 {
    chronological(timestamps)[marker_timestamp_index(k, timestamps.len() as int, count)]
}

/// Marker `j` of those above the sparkline. The stems grow from left to right.
pub open spec fn header_marker(timestamps: Seq<i64>, count: int, width: int, j: int) -> TimeMarker {
    let k = footer_marker_count(count) + j;
    TimeMarker {
        horizontal_offset: marker_offset(k, count, width) as usize,
        timestamp_location: TimestampLocation::Top,
        timestamp: marker_timestamp(timestamps, count, k),
        vertical_offset: (j + 1) as usize,
    }
}

/// Marker `j` of those below the sparkline. The stems shrink from left to right.
pub open spec fn footer_marker(timestamps: Seq<i64>, count: int, width: int, j: int) -> TimeMarker {
    TimeMarker {
        horizontal_offset: marker_offset(j, count, width) as usize,
        timestamp_location: TimestampLocation::Bottom,
        timestamp: marker_timestamp(timestamps, count, j),
        vertical_offset: (footer_marker_count(count) - j) as usize,
    }
}

/// The markers above the sparkline, left to right.
pub open spec fn header_markers(timestamps: Seq<i64>, count: int, width: int) -> Seq<TimeMarker> {
    Seq::new(
        (count - footer_marker_count(count)) as nat,
        |j: int| header_marker(timestamps, count, width, j),
    )
}

/// The markers below the sparkline, left to right.
pub open spec fn footer_markers(timestamps: Seq<i64>, count: int, width: int) -> Seq<TimeMarker> {
    Seq::new(footer_marker_count(count) as nat, |j: int| footer_marker(timestamps, count, width, j))
}

/// Every marker has a label and fits a canvas of `width` by `height` with it.
pub open spec fn all_render_within(markers: Seq<TimeMarker>, width: int, height: int) -> bool {
    forall|j: int| 0 <= j < markers.len() ==> (#[trigger] markers[j]).renders_within(width, height)
}

/// `grid` after the markers are drawn on it one after the other, each with
/// the date and time of its timestamp.
pub open spec fn all_drawn(grid: Seq<Seq<char>>, markers: Seq<TimeMarker>) -> Seq<Seq<char>>
    decreases markers.len(),
{
    if markers.len() == 0 {
        grid
    } else {
        markers.last().drawn(
            all_drawn(grid, markers.drop_last()),
            timestamp_label(markers.last().timestamp)->0,
        )
    }
}

/// The block of text above the sparkline.
pub open spec fn header_text(timestamps: Seq<i64>, count: int, width: int) -> Seq<char> {
    let rows = count - footer_marker_count(count) + 1;
    grid_text(
        all_drawn(blank_grid(width as nat, rows as nat), header_markers(timestamps, count, width)),
    )
}

/// The block of text below the sparkline.
pub open spec fn footer_text(timestamps: Seq<i64>, count: int, width: int) -> Seq<char> {
    let rows = footer_marker_count(count) + 1;
    grid_text(
        all_drawn(blank_grid(width as nat, rows as nat), footer_markers(timestamps, count, width)),
    )
}

/// The two blocks of text, above and below the sparkline, for `count`
/// markers: both empty where there is no marker.
pub open spec fn time_marker_text(timestamps: Seq<i64>, count: int, width: int) -> (
    Seq<char>,
    Seq<char>,
) {
    if count == 0 {
        (Seq::empty(), Seq::empty())
    } else {
        (header_text(timestamps, count, width), footer_text(timestamps, count, width))
    }
}

/// The inputs for which both blocks can be drawn: no marker at all, or at
/// least two markers, no more markers than timestamps, a line of at least one
/// column, and room on each canvas for every marker with its label.
pub open spec fn markers_drawable(timestamps: Seq<i64>, count: int, width: int) -> bool {
    count == 0 || {
        &&& 2 <= count <= timestamps.len()
        &&& 1 <= width
        &&& all_render_within(
            header_markers(timestamps, count, width),
            width,
            count - footer_marker_count(count) + 1,
        )
        &&& all_render_within(
            footer_markers(timestamps, count, width),
            width,
            footer_marker_count(count) + 1,
        )
    }
}

/// With at least two markers the footer takes at least two of them and no
/// more than there are.
pub proof fn lemma_footer_marker_count(count: int)
    requires
        2 <= count,
    ensures
        2 <= footer_marker_count(count) <= count,
        footer_marker_count(count) <= count / 2 + 1,
        footer_marker_count(count) % 2 == 0,
{
}

/// Within a block every marker has a row of its own for its label: no two
/// labels share a row.
pub proof fn lemma_labels_on_rows_of_their_own(
    timestamps: Seq<i64>,
    count: int,
    width: int,
    j: int,
    k: int,
)
    requires
        2 <= count <= usize::MAX,
        0 <= j < k,
    ensures
        k < count - footer_marker_count(count) ==> header_marker(
            timestamps,
            count,
            width,
            j,
        ).label_row(count - footer_marker_count(count) + 1) != header_marker(
            timestamps,
            count,
            width,
            k,
        ).label_row(count - footer_marker_count(count) + 1),
        k < footer_marker_count(count) ==> footer_marker(timestamps, count, width, j).label_row(
            footer_marker_count(count) + 1,
        ) != footer_marker(timestamps, count, width, k).label_row(footer_marker_count(count) + 1),
{
    lemma_footer_marker_count(count);
}

/// Every marker column lies on the line, and the columns never step back
/// from one marker to the next.
pub proof fn lemma_marker_offset_bounds(k: int, count: int, width: int)
    requires
        2 <= count,
        1 <= width,
        0 <= k < count,
    ensures
        0 <= marker_offset(k, count, width) < width,
        0 < k < count - 1 && 2 <= width ==> marker_offset(k, count, width) == div_ceil(
            k * (width - 2),
            count - 1,
        ),
        0 < k ==> marker_offset(k - 1, count, width) <= marker_offset(k, count, width),
{
    if 2 <= width {
        if 0 < k < count - 1 {
            lemma_scaled_bounds(k, width - 2, count - 1);
            lemma_small_mod(div_ceil(k * (width - 2), count - 1) as nat, width as nat);
        }
        if 0 < k {
            if 0 < k - 1 < count - 1 {
                lemma_scaled_bounds(k - 1, width - 2, count - 1);
                lemma_small_mod(div_ceil((k - 1) * (width - 2), count - 1) as nat, width as nat);
            }
            if k < count - 1 {
                lemma_scaled_monotonic(k - 1, k, width - 2, count - 1);
                assert(div_ceil(0, count - 1) == 0) by (nonlinear_arith)
                    requires
                        count - 1 > 0,
                ;
            }
        }
    }
}

/// The markers, and with them both blocks of text, do not depend on the
/// order in which the timestamps are given.
pub proof fn lemma_time_markers_are_order_free(a: Seq<i64>, b: Seq<i64>, count: int, width: int)
    requires
        a.to_multiset() == b.to_multiset(),
    ensures
        header_markers(a, count, width) == header_markers(b, count, width),
        footer_markers(a, count, width) == footer_markers(b, count, width),
        time_marker_text(a, count, width) == time_marker_text(b, count, width),
        markers_drawable(a, count, width) == markers_drawable(b, count, width),
{
    lemma_chronological_is_order_free(a, b);
    lemma_chronological(a);
    lemma_chronological(b);
    assert(header_markers(a, count, width) =~= header_markers(b, count, width));
    assert(footer_markers(a, count, width) =~= footer_markers(b, count, width));
}

/// The timestamps under the markers never go back in time from one marker
/// to the next.
pub proof fn lemma_marker_timestamps_in_order(timestamps: Seq<i64>, count: int, j: int, k: int)
    requires
        0 <= j <= k < count <= timestamps.len(),
    ensures
        marker_timestamp(timestamps, count, j) <= marker_timestamp(timestamps, count, k),
{
    let total = timestamps.len() as int;
    lemma_chronological(timestamps);
    lemma_marker_timestamp_index_bounds(j, total, count);
    lemma_marker_timestamp_index_bounds(k, total, count);
    lemma_scaled_monotonic(j, k, total, count);
}

/// With no more markers than timestamps, every marker shows a timestamp that
/// is there.
pub proof fn lemma_marker_timestamp_index_bounds(k: int, total: int, count: int)
    requires
        0 <= k < count <= total,
    ensures
        0 <= marker_timestamp_index(k, total, count) < total,
{
    lemma_scaled_bounds(k, total, count);
    assert(k * total <= count * (total - 1)) by (nonlinear_arith)
        requires
            0 <= k <= count - 1,
            count <= total,
    ;
    lemma_quotients_ordered(k * total, count * (total - 1), count);
    assert(div_ceil(count * (total - 1), count) == total - 1) by (nonlinear_arith)
        requires
            0 < count,
    ;
}

/// The columns of `count` markers on a line of `terminal_width` columns.
pub fn marker_offsets(count: usize, terminal_width: usize) -> (offsets: Vec<usize>)
    requires
        2 <= count,
        1 <= terminal_width,
    ensures
        offsets@.len() == count,
        forall|k: int|
            0 <= k < count ==> #[trigger] offsets@[k] == marker_offset(
                k,
                count as int,
                terminal_width as int,
            ),
        offsets@[0] == 0,
        offsets@[count - 1] == terminal_width - 1,
        forall|k: int| 0 <= k < count ==> #[trigger] offsets@[k] < terminal_width,
        forall|j: int, k: int| 0 <= j <= k < count ==> offsets@[j] <= offsets@[k],
{
    let mut offsets: Vec<usize> = Vec::new();
    offsets.push(0);
    let mut k: usize = 1;
    while k < count - 1
        invariant
            2 <= count,
            1 <= terminal_width,
            1 <= k <= count - 1,
            offsets@.len() == k,
            forall|i: int|
                0 <= i < k ==> #[trigger] offsets@[i] == marker_offset(
                    i,
                    count as int,
                    terminal_width as int,
                ),
        decreases count - 1 - k,
    {
        proof {
            lemma_marker_offset_bounds(k as int, count as int, terminal_width as int);
        }
        let column: usize = if terminal_width >= 2 {
            scale_ceil(k, terminal_width - 2, count - 1) % terminal_width
        } else {
            0
        };
        offsets.push(column);
        k = k + 1;
    }
    offsets.push(terminal_width - 1);
    proof {
        assert forall|i: int| 0 <= i < count implies #[trigger] offsets@[i] < terminal_width by {
            lemma_marker_offset_bounds(i, count as int, terminal_width as int);
        }
        assert forall|j: int, i: int| 0 <= j <= i < count implies offsets@[j] <= offsets@[i] by {
            lemma_offsets_ordered(j, i, count as int, terminal_width as int);
        }
    }
    offsets
}

/// A marker never stands left of an earlier one.
pub proof fn lemma_offsets_ordered(j: int, k: int, count: int, width: int)
    requires
        2 <= count,
        1 <= width,
        0 <= j <= k < count,
    ensures
        marker_offset(j, count, width) <= marker_offset(k, count, width),
    decreases k - j,
{
    if j < k {
        lemma_offsets_ordered(j, k - 1, count, width);
        lemma_marker_offset_bounds(k, count, width);
    }
}

/// The number of markers that stand below the sparkline.
pub fn count_footer_markers(marker_count: usize) -> (footer: usize)
    ensures
        footer == footer_marker_count(marker_count as int),
{
    let half: usize = marker_count / 2;
    if half % 2 != 0 {
        half + 1
    } else {
        half
    }
}

/// Puts the timestamps in the order of time, chooses the timestamp and the
/// column of every marker and hands back the markers above the sparkline and
/// those below it, each group left to right.
pub fn place_markers(
    timestamps: &[i64],
    marker_count: usize,
    terminal_width: usize,
) -> (placed: (Vec<TimeMarker>, Vec<TimeMarker>))
    requires
        2 <= marker_count <= timestamps@.len(),
        1 <= terminal_width,
    ensures
        placed.0@ == header_markers(timestamps@, marker_count as int, terminal_width as int),
        placed.1@ == footer_markers(timestamps@, marker_count as int, terminal_width as int),
{
    let footer_count: usize = count_footer_markers(marker_count);
    let offsets = marker_offsets(marker_count, terminal_width);
    let sorted = sort_timestamps(timestamps);
    proof {
        lemma_footer_marker_count(marker_count as int);
    }
    let mut footer: Vec<TimeMarker> = Vec::new();
    let mut j: usize = 0;
    while j < footer_count
        invariant
            j <= footer_count <= marker_count <= timestamps@.len(),
            sorted@ == chronological(timestamps@),
            sorted@.len() == timestamps@.len(),
            footer_count == footer_marker_count(marker_count as int),
            offsets@.len() == marker_count,
            forall|k: int|
                0 <= k < marker_count ==> #[trigger] offsets@[k] == marker_offset(
                    k,
                    marker_count as int,
                    terminal_width as int,
                ),
            footer@.len() == j,
            forall|i: int|
                0 <= i < j ==> #[trigger] footer@[i] == footer_marker(
                    timestamps@,
                    marker_count as int,
                    terminal_width as int,
                    i,
                ),
        decreases footer_count - j,
    {
        proof {
            lemma_marker_timestamp_index_bounds(
                j as int,
                timestamps@.len() as int,
                marker_count as int,
            );
        }
        let index: usize = scale_ceil(j, timestamps.len(), marker_count);
        footer.push(
            TimeMarker {
                horizontal_offset: offsets[j],
                timestamp_location: TimestampLocation::Bottom,
                timestamp: sorted[index],
                vertical_offset: footer_count - j,
            },
        );
        j = j + 1;
    }
    let header_count: usize = marker_count - footer_count;
    let mut header: Vec<TimeMarker> = Vec::new();
    let mut j: usize = 0;
    while j < header_count
        invariant
            j <= header_count,
            header_count == marker_count - footer_count,
            2 <= footer_count <= marker_count <= timestamps@.len(),
            sorted@ == chronological(timestamps@),
            sorted@.len() == timestamps@.len(),
            footer_count == footer_marker_count(marker_count as int),
            offsets@.len() == marker_count,
            forall|k: int|
                0 <= k < marker_count ==> #[trigger] offsets@[k] == marker_offset(
                    k,
                    marker_count as int,
                    terminal_width as int,
                ),
            header@.len() == j,
            forall|i: int|
                0 <= i < j ==> #[trigger] header@[i] == header_marker(
                    timestamps@,
                    marker_count as int,
                    terminal_width as int,
                    i,
                ),
        decreases header_count - j,
    {
        let k: usize = footer_count + j;
        proof {
            lemma_marker_timestamp_index_bounds(
                k as int,
                timestamps@.len() as int,
                marker_count as int,
            );
        }
        let index: usize = scale_ceil(k, timestamps.len(), marker_count);
        header.push(
            TimeMarker {
                horizontal_offset: offsets[k],
                timestamp_location: TimestampLocation::Top,
                timestamp: sorted[index],
                vertical_offset: j + 1,
            },
        );
        j = j + 1;
    }
    (header, footer)
}

/// Whether every marker has a label and fits a canvas of `width` columns and
/// `height` rows with it.
pub fn all_renderable(markers: &Vec<TimeMarker>, width: usize, height: usize) -> (fit: bool)
    ensures
        fit == all_render_within(markers@, width as int, height as int),
{
    let mut j: usize = 0;
    while j < markers.len()
        invariant
            j <= markers@.len(),
            forall|i: int|
                0 <= i < j ==> (#[trigger] markers@[i]).renders_within(width as int, height as int),
        decreases markers@.len() - j,
    {
        let marker = markers[j];
        match format_timestamp(marker.timestamp) {
            Some(label) => {
                let length: usize = label.as_str().unicode_len();
                if !marker.fits_canvas(width, height, length) {
                    return false;
                }
            },
            None => {
                return false;
            },
        }
        j = j + 1;
    }
    true
}

/// Draws the markers on the canvas, one after the other.
fn render_all(canvas: &mut Canvas, markers: &Vec<TimeMarker>)
    requires
        old(canvas).wf(),
        all_render_within(markers@, old(canvas).columns() as int, old(canvas).rows() as int),
    ensures
        final(canvas).wf(),
        final(canvas).columns() == old(canvas).columns(),
        final(canvas).rows() == old(canvas).rows(),
        final(canvas)@ == all_drawn(old(canvas)@, markers@),
{
    let mut j: usize = 0;
    while j < markers.len()
        invariant
            j <= markers@.len(),
            canvas.wf(),
            canvas.columns() == old(canvas).columns(),
            canvas.rows() == old(canvas).rows(),
            all_render_within(markers@, canvas.columns() as int, canvas.rows() as int),
            canvas@ == all_drawn(old(canvas)@, markers@.take(j as int)),
        decreases markers@.len() - j,
    {
        proof {
            assert(markers@.take(j as int + 1).drop_last() =~= markers@.take(j as int));
        }
        let marker = markers[j];
        marker.render(canvas);
        j = j + 1;
    }
    assert(markers@.take(j as int) =~= markers@);
}

/// The two blocks of text that carry the time markers: the one above the
/// sparkline and the one below it. The timestamps may come in any order:
/// the markers show them in the order of time. Without markers both blocks
/// are empty.
pub fn build_time_markers(
    timestamps: &[i64],
    marker_count: usize,
    terminal_width: usize,
) -> (blocks: (String, String))
    requires
        markers_drawable(timestamps@, marker_count as int, terminal_width as int),
    ensures
        (blocks.0@, blocks.1@) == time_marker_text(
            timestamps@,
            marker_count as int,
            terminal_width as int,
        ),
        marker_count == 0 ==> blocks.0@.len() == 0 && blocks.1@.len() == 0,
{
    if marker_count == 0 {
        return (String::new(), String::new());
    }
    proof {
        lemma_footer_marker_count(marker_count as int);
    }
    let (header, footer) = place_markers(timestamps, marker_count, terminal_width);
    let mut header_canvas = Canvas::new(terminal_width, header.len() + 1);
    let mut footer_canvas = Canvas::new(terminal_width, footer.len() + 1);
    render_all(&mut header_canvas, &header);
    render_all(&mut footer_canvas, &footer);
    (header_canvas.to_string(), footer_canvas.to_string())
}

/// The two blocks of text for the inputs for which they can be drawn, and
/// `None` for the others.
pub fn try_build_time_markers(
    timestamps: &[i64],
    marker_count: usize,
    terminal_width: usize,
) -> (blocks: Option<(String, String)>)
    ensures
        blocks is Some <==> markers_drawable(
            timestamps@,
            marker_count as int,
            terminal_width as int,
        ),
        blocks matches Some(b) ==> (b.0@, b.1@) == time_marker_text(
            timestamps@,
            marker_count as int,
            terminal_width as int,
        ),
{
    if marker_count == 0 {
        return Some(build_time_markers(timestamps, marker_count, terminal_width));
    }
    if marker_count < 2 || marker_count > timestamps.len() || terminal_width < 1 {
        return None;
    }
    proof {
        lemma_footer_marker_count(marker_count as int);
    }
    let (header, footer) = place_markers(timestamps, marker_count, terminal_width);
    if !all_renderable(&header, terminal_width, header.len() + 1) {
        return None;
    }
    if !all_renderable(&footer, terminal_width, footer.len() + 1) {
        return None;
    }
    Some(build_time_markers(timestamps, marker_count, terminal_width))
}

} // verus!
