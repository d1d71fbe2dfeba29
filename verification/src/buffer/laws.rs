//! Laws of mirror buffers.

use crate::buffer::{
    extracted, overwritten, region_written, row_changed, rows_within, MirrorBuffer, Placement,
    RegionSpec,
};
use vstd::arithmetic::mul::{lemma_mul_inequality, lemma_mul_is_distributive_add_other_way};
use vstd::prelude::*;

verus! {

/// A layout whose rows lie side by side within the pixel data: the pixels of
/// a row end before the next row starts, and the last row ends within the
/// data.
pub open spec fn tiled(at: Placement, height: nat, len: nat) -> bool {
    &&& at.x == 0
    &&& at.y == 0
    &&& at.row_len() <= at.stride
    &&& height > 0 ==> (height - 1) * at.stride + at.row_len() <= len
}

/// The pixels of row `row`, without the padding up to the stride.
pub open spec fn row_pixels(data: Seq<u8>, at: Placement, row: int) -> Seq<u8> {
    data.subrange(row * at.stride, row * at.stride + at.row_len())
}

/// The same layout, for a region that starts at row `y`.
pub open spec fn from_row(at: Placement, y: nat) -> Placement {
    Placement { stride: at.stride, bpp: at.bpp, x: 0, y, width: at.width }
}

/// In a tiled layout every row lies within the data, and rows do not
/// overlap.
pub proof fn lemma_tiled_rows(at: Placement, height: nat, len: nat, a: int, b: int)
    requires
        tiled(at, height, len),
        0 <= a <= b < height,
    ensures
        0 <= a * at.stride,
        b * at.stride + at.row_len() <= len,
        a < b ==> a * at.stride + at.row_len() <= b * at.stride,
{
    lemma_mul_inequality(b, height - 1, at.stride as int);
    lemma_mul_inequality(0, a, at.stride as int);
    if a < b {
        lemma_mul_inequality(a + 1, b, at.stride as int);
        lemma_mul_is_distributive_add_other_way(at.stride as int, a, 1);
    }
}

/// Where a row of a region that starts at row `y` lies in the buffer.
pub proof fn lemma_from_row(at: Placement, y: nat, row: nat)
    requires
        at.x == 0,
        at.y == 0,
    ensures
        from_row(at, y).row_len() == at.row_len(),
        from_row(at, y).dst_offset(row) == (y + row) * at.stride,
        from_row(at, y).src_offset(row) == row * at.row_len(),
{
    assert(0 * at.bpp == 0) by (nonlinear_arith);
}

/// Extracting whole rows of a tiled buffer gives their pixels, row after
/// row.
pub proof fn lemma_extracted_rows(data: Seq<u8>, at: Placement, height: nat, y: nat, rows: nat)
    requires
        tiled(at, height, data.len()),
        y + rows <= height,
    ensures
        extracted(data, from_row(at, y), rows).len() == rows * at.row_len(),
        forall|r: int|
            0 <= r < rows ==> #[trigger] extracted(data, from_row(at, y), rows).subrange(
                r * at.row_len(),
                r * at.row_len() + at.row_len(),
            ) == row_pixels(data, at, y + r),
    decreases rows,
{
    let here = from_row(at, y);
    let w = at.row_len() as int;
    if rows > 0 {
        let last = (rows - 1) as nat;
        lemma_extracted_rows(data, at, height, y, last);
        lemma_from_row(at, y, last);
        lemma_tiled_rows(at, height, data.len(), (y + last) as int, (y + last) as int);
        let before = extracted(data, here, last);
        let whole = extracted(data, here, rows);
        let from = ((y + last) * at.stride) as int;
        assert(whole == before + data.subrange(from, from + w));
        assert(rows * w == last * w + w) by (nonlinear_arith)
            requires
                rows == last + 1,
        ;
        assert forall|r: int| 0 <= r < rows implies #[trigger] whole.subrange(r * w, r * w + w)
            == row_pixels(data, at, y + r) by {
            if r < last {
                assert(r * w + w <= last * w) by (nonlinear_arith)
                    requires
                        r + 1 <= last,
                        w >= 0,
                ;
                assert(0 <= r * w) by (nonlinear_arith)
                    requires
                        0 <= r,
                        w >= 0,
                ;
                assert(whole.subrange(r * w, r * w + w) =~= before.subrange(r * w, r * w + w));
            } else {
                assert(whole.subrange(r * w, r * w + w) =~= data.subrange(from, from + w));
            }
        }
    } else {
        assert(0 * at.row_len() == 0) by (nonlinear_arith);
    }
}

/// Writing whole rows into a tiled buffer replaces the pixels of those rows
/// and nothing else.
pub proof fn lemma_written_rows(
    buf: Seq<u8>,
    at: Placement,
    height: nat,
    y: nat,
    src: Seq<u8>,
    rows: nat,
    total: nat,
)
    requires
        tiled(at, height, buf.len()),
        rows <= total,
        y + total <= height,
        src.len() == total * at.row_len(),
    ensures
        region_written(buf, from_row(at, y), src, rows).len() == buf.len(),
        forall|row: int|
            0 <= row < height ==> #[trigger] row_pixels(
                region_written(buf, from_row(at, y), src, rows),
                at,
                row,
            ) == if y <= row < y + rows {
                src.subrange((row - y) * at.row_len(), (row - y) * at.row_len() + at.row_len())
            } else {
                row_pixels(buf, at, row)
            },
    decreases rows,
{
    let here = from_row(at, y);
    let w = at.row_len() as int;
    if rows > 0 {
        let last = (rows - 1) as nat;
        lemma_written_rows(buf, at, height, y, src, last, total);
        lemma_from_row(at, y, last);
        let target = (y + last) as int;
        lemma_tiled_rows(at, height, buf.len(), target, target);
        let before = region_written(buf, here, src, last);
        let after = region_written(buf, here, src, rows);
        let to = target * at.stride;
        let from = last * w;
        assert(from + w <= src.len()) by (nonlinear_arith)
            requires
                last + 1 <= total,
                src.len() == total * w,
                from == last * w,
                w >= 0,
        ;
        assert(0 <= from) by (nonlinear_arith)
            requires
                from == last * w,
                w >= 0,
        ;
        let pixels = src.subrange(from, from + w);
        assert(after == overwritten(before, to, pixels));
        assert(after.len() == buf.len());
        assert forall|row: int| 0 <= row < height implies #[trigger] row_pixels(after, at, row)
            == if y <= row < y + rows {
            src.subrange((row - y) * w, (row - y) * w + w)
        } else {
            row_pixels(buf, at, row)
        } by {
            lemma_tiled_rows(at, height, buf.len(), row, row);
            if row == target {
                assert(row_pixels(after, at, row) =~= pixels);
            } else {
                if row < target {
                    lemma_tiled_rows(at, height, buf.len(), row, target);
                } else {
                    lemma_tiled_rows(at, height, buf.len(), target, row);
                }
                assert(row_pixels(after, at, row) =~= row_pixels(before, at, row));
            }
        }
    }
}

/// The rows that the first `count` regions cover.
pub open spec fn covered(regions: Seq<RegionSpec>, count: nat, row: int) -> bool {
    exists|k: int|
        0 <= k < count && (#[trigger] regions[k]).y <= row < regions[k].y + regions[k].height
}

/// After the first `count` regions of a delta have been written to the
/// mirror, the rows that they cover hold the pixels of the source, and the
/// others those of the mirror.
pub proof fn lemma_delta_written(
    source: MirrorBuffer,
    mirror: MirrorBuffer,
    regions: Seq<RegionSpec>,
    count: nat,
)
    requires
        source.comparable(),
        source.scannable(),
        tiled(source.placement(0, 0, source.width), source.height as nat, source.data@.len()),
        mirror.width == source.width,
        mirror.height == source.height,
        mirror.bpp == source.bpp,
        mirror.stride == source.stride,
        mirror.data@.len() == source.data@.len(),
        source.is_delta(regions),
        count <= regions.len(),
    ensures
        mirror.delta_written(regions, count).len() == mirror.data@.len(),
        forall|k: int|
            0 <= k < count ==> {
                let r = #[trigger] regions[k];
                mirror.accepts_region(r.x, r.y, r.width, r.height, r.data.len())
            },
        forall|row: int|
            0 <= row < source.height ==> #[trigger] row_pixels(
                mirror.delta_written(regions, count),
                source.placement(0, 0, source.width),
                row,
            ) == if covered(regions, count, row) {
                row_pixels(source.data@, source.placement(0, 0, source.width), row)
            } else {
                row_pixels(mirror.data@, source.placement(0, 0, source.width), row)
            },
    decreases count,
{
    let at = source.placement(0, 0, source.width);
    let height = source.height as nat;
    if count > 0 {
        let prior = (count - 1) as nat;
        lemma_delta_written(source, mirror, regions, prior);
        let r = regions[prior as int];
        let before = mirror.delta_written(regions, prior);
        let after = mirror.delta_written(regions, count);
        let y = r.y as nat;
        let h = r.height as nat;
        assert(mirror.placement(r.x, r.y, r.width) == from_row(at, y));
        assert(source.placement(0, r.y, source.width) == from_row(at, y));
        assert(rows_within(mirror.height, r.y, r.height) == h);
        lemma_extracted_rows(source.data@, at, height, y, h);
        lemma_written_rows(before, at, height, y, r.data, h, h);
        assert(after == region_written(before, from_row(at, y), r.data, h));
        assert(mirror.accepts_region(r.x, r.y, r.width, r.height, r.data.len())) by {
            let last = (h - 1) as nat;
            lemma_from_row(at, y, last);
            lemma_tiled_rows(at, height, source.data@.len(), (y + last) as int, (y + last) as int);
            lemma_mul_inequality((y + last) as int, (height - 1) as int, at.stride as int);
            assert(last * at.row_len() <= h * at.row_len()) by (nonlinear_arith)
                requires
                    last <= h,
            ;
            assert(last * at.row_len() <= (height - 1) * at.stride) by (nonlinear_arith)
                requires
                    last <= height - 1,
                    at.row_len() <= at.stride,
            ;
            assert(at.dst_offset((height - 1) as nat) == (height - 1) * at.stride) by {
                lemma_from_row(at, 0, (height - 1) as nat);
                assert(from_row(at, 0) == at);
            }
        }
        assert forall|row: int| 0 <= row < source.height implies #[trigger] row_pixels(
            after,
            at,
            row,
        ) == if covered(regions, count, row) {
            row_pixels(source.data@, at, row)
        } else {
            row_pixels(mirror.data@, at, row)
        } by {
            if y <= row < y + h {
                assert(regions[prior as int].y <= row < regions[prior as int].y
                    + regions[prior as int].height);
                assert(covered(regions, count, row));
            } else {
                if covered(regions, count, row) {
                    let k = choose|k: int|
                        0 <= k < count && (#[trigger] regions[k]).y <= row < regions[k].y
                            + regions[k].height;
                    assert(k < prior);
                    assert(covered(regions, prior, row));
                } else if covered(regions, prior, row) {
                    let k = choose|k: int|
                        0 <= k < prior && (#[trigger] regions[k]).y <= row < regions[k].y
                            + regions[k].height;
                    assert(0 <= k < count && regions[k].y <= row < regions[k].y
                        + regions[k].height);
                }
            }
        }
    }
}

/// A mirror that holds the previous frame of its source holds the current
/// one after the delta between the two has been applied: every row has the
/// pixels of the source. Both buffers have the same layout, in which rows
/// lie side by side within the pixel data.
pub proof fn law_delta_brings_mirror_up_to_date(
    source: MirrorBuffer,
    mirror: MirrorBuffer,
    regions: Seq<RegionSpec>,
)
    requires
        source.comparable(),
        source.scannable(),
        tiled(source.placement(0, 0, source.width), source.height as nat, source.data@.len()),
        mirror.width == source.width,
        mirror.height == source.height,
        mirror.bpp == source.bpp,
        mirror.stride == source.stride,
        mirror.data@ == source.prev_data.unwrap()@,
        source.is_delta(regions),
    ensures
        mirror.accepts_delta(regions),
        mirror.delta_written(regions, regions.len()).len() == source.data@.len(),
        forall|row: int|
            0 <= row < source.height ==> #[trigger] row_pixels(
                mirror.delta_written(regions, regions.len()),
                source.placement(0, 0, source.width),
                row,
            ) == row_pixels(source.data@, source.placement(0, 0, source.width), row),
{
    let at = source.placement(0, 0, source.width);
    let after = mirror.delta_written(regions, regions.len());
    lemma_delta_written(source, mirror, regions, regions.len());
    assert forall|row: int| 0 <= row < source.height implies #[trigger] row_pixels(after, at, row)
        == row_pixels(source.data@, at, row) by {
        if !covered(regions, regions.len(), row) {
            lemma_tiled_rows(at, source.height as nat, source.data@.len(), row, row);
            let changed = |row: int| source.changed(row);
            if changed(row) {
                let k = choose|k: int|
                    0 <= k < regions.len() && (#[trigger] regions[k]).y <= row < regions[k].y
                        + regions[k].height;
                assert(covered(regions, regions.len(), row));
            }
            assert(!source.changed(row));
            assert(at.dst_offset(row as nat) == row * at.stride) by {
                lemma_from_row(at, 0, row as nat);
                assert(from_row(at, 0) == at);
            }
            assert(!row_changed(source.data@, source.prev_data.unwrap()@, at, row));
        }
    }
}

} // verus!
