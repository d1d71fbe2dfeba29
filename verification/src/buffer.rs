//! Mirror buffers.
//!
//! Both ends of a forwarded connection keep a copy of each shared pixel
//! buffer. When a buffer changes, only the rows that differ from the
//! previous frame travel.

use vstd::arithmetic::mul::lemma_mul_inequality;
use vstd::prelude::*;

pub mod laws;
pub mod manager;

pub use manager::BufferManager;

verus! {

/// A changed region of a buffer, in pixels.
#[derive(Debug, Clone, Copy)]
pub struct DirtyRegion {
    pub x: u32,
    pub y: u32,
    pub width: u32,
    pub height: u32,
}

/// A changed region with its pixels.
#[derive(Debug)]
pub struct DeltaRegion {
    pub x: u32,
    pub y: u32,
    pub width: u32,
    pub height: u32,
    pub data: Vec<u8>,
}

/// The changed regions of one buffer.
#[derive(Debug)]
pub struct BufferDelta {
    pub buffer_id: u32,
    /// The changed regions, top to bottom.
    pub regions: Vec<DeltaRegion>,
    /// Octets of pixel data in all regions together.
    pub total_bytes: usize,
}

/// A mirrored shared-memory buffer.
#[derive(Debug)]
pub struct MirrorBuffer {
    /// The object id of the buffer.
    pub id: u32,
    /// Width in pixels.
    pub width: u32,
    /// Height in pixels.
    pub height: u32,
    /// Octets per pixel.
    pub bpp: u32,
    /// Octets per row.
    pub stride: u32,
    /// The pixels.
    pub data: Vec<u8>,
    /// The pixels before the last update.
    pub prev_data: Option<Vec<u8>>,
    /// Regions written since the last synchronisation, oldest first.
    pub dirty_regions: Vec<DirtyRegion>,
}

/// `dst` with the octets of `src` written over it from offset `at` on.
pub open spec fn overwritten(dst: Seq<u8>, at: int, src: Seq<u8>) -> Seq<u8>
    recommends
        0 <= at,
        at + src.len() <= dst.len(),
{
    dst.subrange(0, at) + src + dst.subrange(at + src.len(), dst.len() as int)
}

/// The smallest of three numbers.
pub open spec fn min3(a: int, b: int, c: int) -> int {
    if a <= b && a <= c {
        a
    } else if b <= c {
        b
    } else {
        c
    }
}

/// How many rows of a region that starts at row `y` and is `height` rows
/// high lie within a buffer of `buf_height` rows.
pub open spec fn rows_within(buf_height: u32, y: u32, height: u32) -> nat {
    if y >= buf_height {
        0
    } else if height <= buf_height - y {
        height as nat
    } else {
        (buf_height - y) as nat
    }
}

/// The layout of a buffer and the place of a region in it, as plain numbers.
pub struct Placement {
    pub stride: nat,
    pub bpp: nat,
    pub x: nat,
    pub y: nat,
    pub width: nat,
}

impl Placement {
    /// Octets in one row of the region.
    pub open spec fn row_len(self) -> nat {
        self.width * self.bpp
    }

    /// Where row `row` of the region starts in the region's own data.
    pub open spec fn src_offset(self, row: nat) -> nat {
        row * self.row_len()
    }

    /// Where row `row` of the region starts in the buffer.
    pub open spec fn dst_offset(self, row: nat) -> nat {
        (self.y + row) * self.stride + self.x * self.bpp
    }
}

/// The buffer after the first `rows` rows of a region have been written.
/// A row is cut short where the buffer or the region's data ends.
pub open spec fn region_written(buf: Seq<u8>, at: Placement, src: Seq<u8>, rows: nat) -> Seq<u8>
    decreases rows,
{
    if rows == 0 {
        buf
    } else {
        let row = (rows - 1) as nat;
        let before = region_written(buf, at, src, row);
        let n = min3(
            at.row_len() as int,
            before.len() - at.dst_offset(row),
            src.len() - at.src_offset(row),
        );
        overwritten(
            before,
            at.dst_offset(row) as int,
            src.subrange(at.src_offset(row) as int, at.src_offset(row) + n),
        )
    }
}

/// What a region of a delta says.
pub struct RegionSpec {
    pub x: u32,
    pub y: u32,
    pub width: u32,
    pub height: u32,
    pub data: Seq<u8>,
}

impl View for DeltaRegion {
    type V = RegionSpec;

    open spec fn view(&self) -> RegionSpec {
        RegionSpec {
            x: self.x,
            y: self.y,
            width: self.width,
            height: self.height,
            data: self.data@,
        }
    }
}

/// What the regions of a delta say, in order.
pub open spec fn region_specs(regions: Seq<DeltaRegion>) -> Seq<RegionSpec> {
    regions.map_values(|r: DeltaRegion| r@)
}

/// Octets of pixel data in the regions together.
pub open spec fn total_len(regions: Seq<RegionSpec>) -> nat
    decreases regions.len(),
{
    if regions.len() == 0 {
        0
    } else {
        total_len(regions.drop_last()) + regions.last().data.len()
    }
}

/// The pixels of the first `rows` rows of a region, row after row. A row
/// that does not lie wholly within the buffer is left out.
pub open spec fn extracted(buf: Seq<u8>, at: Placement, rows: nat) -> Seq<u8>
    decreases rows,
{
    if rows == 0 {
        Seq::empty()
    } else {
        let row = (rows - 1) as nat;
        let before = extracted(buf, at, row);
        let from = at.dst_offset(row) as int;
        if from + at.row_len() <= buf.len() {
            before + buf.subrange(from, from + at.row_len())
        } else {
            before
        }
    }
}

/// Extracted rows are no longer than full rows.
pub proof fn lemma_extracted_len(buf: Seq<u8>, at: Placement, rows: nat)
    ensures
        extracted(buf, at, rows).len() <= rows * at.row_len(),
    decreases rows,
{
    if rows > 0 {
        lemma_extracted_len(buf, at, (rows - 1) as nat);
        assert(rows * at.row_len() == (rows - 1) * at.row_len() + at.row_len())
            by (nonlinear_arith);
    }
}

/// Whether row `row` of the buffer differs between two frames. Of a row,
/// the pixels count, not the padding up to the stride; a row that reaches
/// past the end of the data is compared as far as the data goes.
pub open spec fn row_changed(cur: Seq<u8>, prev: Seq<u8>, at: Placement, row: int) -> bool {
    let from = at.dst_offset(row as nat) as int;
    let to = if from + at.row_len() <= cur.len() {
        from + at.row_len()
    } else {
        cur.len() as int
    };
    cur.subrange(from, to) != prev.subrange(from, to)
}

/// Whether the regions are the runs of changed rows among the first
/// `height` rows: each region is a run of changed rows that cannot be
/// extended, the regions come top to bottom, and no changed row is left out.
pub open spec fn marks_changed_rows(
    regions: Seq<RegionSpec>,
    changed: spec_fn(int) -> bool,
    height: int,
) -> bool {
    &&& forall|k: int|
        0 <= k < regions.len() ==> {
            let r = #[trigger] regions[k];
            &&& r.height > 0
            &&& r.y + r.height <= height
            &&& forall|row: int| r.y <= row < r.y + r.height ==> #[trigger] changed(row)
            &&& r.y > 0 ==> !changed(r.y - 1)
            &&& r.y + r.height < height ==> !changed(r.y + r.height)
        }
    &&& forall|j: int, k: int|
        0 <= j < k < regions.len() ==> (#[trigger] regions[j]).y + regions[j].height < (
        #[trigger] regions[k]).y
    &&& forall|row: int|
        0 <= row < height && #[trigger] changed(row) ==> exists|k: int|
            0 <= k < regions.len() && (#[trigger] regions[k]).y <= row < regions[k].y
                + regions[k].height
}

/// Whether the octets of two slices differ somewhere between two offsets.
fn ranges_differ(a: &[u8], b: &[u8], from: usize, to: usize) -> (differ: bool)
    requires
        from <= to,
        to <= a@.len(),
        to <= b@.len(),
    ensures
        differ == (a@.subrange(from as int, to as int) != b@.subrange(from as int, to as int)),
{
    let mut i: usize = from;
    while i < to
        invariant
            from <= i <= to,
            to <= a@.len(),
            to <= b@.len(),
            a@.subrange(from as int, i as int) == b@.subrange(from as int, i as int),
        decreases to - i,
    {
        if a[i] != b[i] {
            assert(a@.subrange(from as int, to as int)[i - from] != b@.subrange(
                from as int,
                to as int,
            )[i - from]);
            return true;
        }
        i += 1;
        assert(a@.subrange(from as int, i as int) =~= a@.subrange(from as int, i - 1).push(
            a@[i - 1],
        ));
        assert(b@.subrange(from as int, i as int) =~= b@.subrange(from as int, i - 1).push(
            b@[i - 1],
        ));
    }
    false
}

/// Copies `len` octets from `src` at `src_at` over `dst` at `dst_at`.
fn copy_octets(dst: &mut Vec<u8>, dst_at: usize, src: &[u8], src_at: usize, len: usize)
    requires
        dst_at + len <= old(dst)@.len(),
        src_at + len <= src@.len(),
    ensures
        final(dst)@ == overwritten(
            old(dst)@,
            dst_at as int,
            src@.subrange(src_at as int, src_at + len),
        ),
{
    let dst_len = dst.len();
    let src_len = src.len();
    let mut i: usize = 0;
    while i < len
        invariant
            i <= len,
            dst@.len() == old(dst)@.len(),
            dst_at + len <= dst_len == dst@.len(),
            src_at + len <= src_len == src@.len(),
            dst@ == overwritten(old(dst)@, dst_at as int, src@.subrange(src_at as int, src_at + i)),
        decreases len - i,
    {
        dst[dst_at + i] = src[src_at + i];
        i += 1;
        assert(dst@ =~= overwritten(
            old(dst)@,
            dst_at as int,
            src@.subrange(src_at as int, src_at + i),
        ));
    }
}

/// Scanning past an unchanged row outside a run leaves the runs found so far
/// as they are.
proof fn lemma_rows_unchanged(regions: Seq<RegionSpec>, changed: spec_fn(int) -> bool, y: int)
    requires
        marks_changed_rows(regions, changed, y),
        !changed(y),
    ensures
        marks_changed_rows(regions, changed, y + 1),
{
}

/// Closing a run of changed rows adds it to the runs found so far.
proof fn lemma_run_closed(
    before: Seq<RegionSpec>,
    after: Seq<RegionSpec>,
    changed: spec_fn(int) -> bool,
    start: int,
    end: int,
)
    requires
        marks_changed_rows(before, changed, start),
        0 <= start < end,
        after.len() == before.len() + 1,
        after.drop_last() == before,
        after.last().y == start,
        after.last().height == end - start,
        forall|row: int| start <= row < end ==> #[trigger] changed(row),
        start > 0 ==> !changed(start - 1),
    ensures
        marks_changed_rows(after, changed, end),
        !changed(end) ==> marks_changed_rows(after, changed, end + 1),
        total_len(after) == total_len(before) + after.last().data.len(),
{
    let n = before.len() as int;
    assert forall|k: int| 0 <= k < n implies after[k] == before[k] by {
        assert(after.drop_last()[k] == after[k]);
    }
    assert forall|j: int, k: int| 0 <= j < k < after.len() implies (#[trigger] after[j]).y
        + after[j].height < (#[trigger] after[k]).y by {
        if k == n {
            assert(before[j].y + before[j].height <= start);
            if before[j].y + before[j].height == start {
                assert(changed(start - 1));
            }
        }
    }
    assert forall|row: int| 0 <= row < end && #[trigger] changed(row) implies exists|k: int|
        0 <= k < after.len() && (#[trigger] after[k]).y <= row < after[k].y + after[k].height by {
        if row < start {
            let k = choose|k: int|
                0 <= k < before.len() && (#[trigger] before[k]).y <= row < before[k].y
                    + before[k].height;
            assert(after[k] == before[k]);
        } else {
            assert(after[n].y <= row < after[n].y + after[n].height);
        }
    }
    assert(marks_changed_rows(after, changed, end));
    if !changed(end) {
        assert forall|row: int| 0 <= row < end + 1 && #[trigger] changed(row) implies exists|k: int|
            0 <= k < after.len() && (#[trigger] after[k]).y <= row < after[k].y + after[k].height by {
            assert(row < end);
        }
    }
}

impl MirrorBuffer {
    /// A buffer of the given layout with all pixels zero and no history.
    pub open spec fn blank(&self, id: u32, width: u32, height: u32, bpp: u32, stride: u32) -> bool {
        &&& self.id == id
        &&& self.width == width
        &&& self.height == height
        &&& self.bpp == bpp
        &&& self.stride == stride
        &&& self.data@ == Seq::new((stride * height) as nat, |i: int| 0u8)
        &&& self.prev_data is None
        &&& self.dirty_regions@ == Seq::<DirtyRegion>::empty()
    }

    /// Whether `other` is this buffer but for pixels, history and dirty
    /// regions.
    pub open spec fn same_layout(&self, other: &MirrorBuffer) -> bool {
        &&& self.id == other.id
        &&& self.width == other.width
        &&& self.height == other.height
        &&& self.bpp == other.bpp
        &&& self.stride == other.stride
    }

    /// A buffer of `stride * height` zero octets. The size is computed in
    /// 32 bits and must fit.
    pub fn new(id: u32, width: u32, height: u32, bpp: u32, stride: u32) -> (b: MirrorBuffer)
        requires
            stride * height <= u32::MAX,
        ensures
            b.blank(id, width, height, bpp, stride),
    {
        let size = (stride * height) as usize;
        let data = vec![0u8; size];
        assert(data@ =~= Seq::new((stride * height) as nat, |i: int| 0u8));
        MirrorBuffer {
            id,
            width,
            height,
            bpp,
            stride,
            data,
            prev_data: None,
            dirty_regions: Vec::new(),
        }
    }

    /// A buffer around existing pixels.
    pub fn from_data(id: u32, width: u32, height: u32, bpp: u32, stride: u32, data: Vec<u8>) -> (b:
        MirrorBuffer)
        ensures
            b.id == id,
            b.width == width,
            b.height == height,
            b.bpp == bpp,
            b.stride == stride,
            b.data == data,
            b.prev_data is None,
            b.dirty_regions@ == Seq::<DirtyRegion>::empty(),
    {
        MirrorBuffer {
            id,
            width,
            height,
            bpp,
            stride,
            data,
            prev_data: None,
            dirty_regions: Vec::new(),
        }
    }

    /// Size of the pixel data in octets.
    pub fn size(&self) -> (n: usize)
        ensures
            n == self.data@.len(),
    {
        self.data.len()
    }

    /// Takes over new pixels and remembers the old ones. Of `data`, as much
    /// is copied as the buffer holds; a shorter `data` leaves the rest of
    /// the buffer as it was.
    pub fn update(&mut self, data: &[u8])
        ensures
            final(self).same_layout(old(self)),
            final(self).dirty_regions@ == old(self).dirty_regions@,
            final(self).prev_data matches Some(prev) && prev@ == old(self).data@,
            final(self).data@ == overwritten(
                old(self).data@,
                0,
                data@.subrange(
                    0,
                    if data@.len() <= old(self).data@.len() {
                        data@.len() as int
                    } else {
                        old(self).data@.len() as int
                    },
                ),
            ),
    {
        self.prev_data = Some(self.data.clone());
        let copy_len = if data.len() <= self.data.len() {
            data.len()
        } else {
            self.data.len()
        };
        copy_octets(&mut self.data, 0, data, 0, copy_len);
    }

    /// The place of a region in this buffer.
    pub open spec fn placement(&self, x: u32, y: u32, width: u32) -> Placement {
        Placement {
            stride: self.stride as nat,
            bpp: self.bpp as nat,
            x: x as nat,
            y: y as nat,
            width: width as nat,
        }
    }

    /// Whether a region can be written: the offsets of its rows are computed
    /// in 32 bits and must fit, and each row that lies within the buffer's
    /// height must start within the pixel data and within `src_len`.
    pub open spec fn accepts_region(
        &self,
        x: u32,
        y: u32,
        width: u32,
        height: u32,
        src_len: nat,
    ) -> bool {
        let at = self.placement(x, y, width);
        let rows = rows_within(self.height, y, height);
        &&& at.row_len() <= u32::MAX
        &&& rows > 0 ==> {
            let last = (rows - 1) as nat;
            &&& at.src_offset(last) <= u32::MAX
            &&& at.src_offset(last) <= src_len
            &&& at.dst_offset(last) <= u32::MAX
            &&& at.dst_offset(last) <= self.data@.len()
        }
    }

    /// Writes a region of pixels, row by row, and marks it dirty. Rows
    /// below the buffer's last row are left out; a row is cut short where
    /// the buffer or `data` ends.
    pub fn update_region(&mut self, x: u32, y: u32, width: u32, height: u32, data: &[u8])
        requires
            old(self).accepts_region(x, y, width, height, data@.len()),
        ensures
            final(self).same_layout(old(self)),
            final(self).prev_data == old(self).prev_data,
            final(self).dirty_regions@ == old(self).dirty_regions@.push(
                DirtyRegion { x, y, width, height },
            ),
            final(self).data@ == region_written(
                old(self).data@,
                old(self).placement(x, y, width),
                data@,
                rows_within(old(self).height, y, height),
            ),
            final(self).data@.len() == old(self).data@.len(),
    {
        let src_stride: u32 = width * self.bpp;
        let ghost at = self.placement(x, y, width);
        let ghost rows = rows_within(self.height, y, height);
        let mut row: u32 = 0;
        while row < height && self.height > y && row < self.height - y
            invariant
                row <= rows,
                rows == rows_within(self.height, y, height),
                at == self.placement(x, y, width),
                self.same_layout(old(self)),
                self.prev_data == old(self).prev_data,
                self.dirty_regions == old(self).dirty_regions,
                src_stride == at.row_len(),
                old(self).accepts_region(x, y, width, height, data@.len()),
                self.data@.len() == old(self).data@.len(),
                self.data@ == region_written(old(self).data@, at, data@, row as nat),
            decreases height - row,
        {
            proof {
                let last = (rows - 1) as nat;
                lemma_mul_inequality(row as int, last as int, at.row_len() as int);
                lemma_mul_inequality((at.y + row) as int, (at.y + last) as int, at.stride as int);
                assert(at.src_offset(row as nat) <= at.src_offset(last));
                assert(at.dst_offset(row as nat) <= at.dst_offset(last));
                assert(at.x * at.bpp >= 0) by (nonlinear_arith)
                    requires
                        at.x >= 0,
                        at.bpp >= 0,
                ;
                assert((at.y + row) * at.stride >= 0) by (nonlinear_arith)
                    requires
                        at.y + row >= 0,
                        at.stride >= 0,
                ;
            }
            let dst_y: u32 = y + row;
            let src_offset = (row * src_stride) as usize;
            let dst_offset = (dst_y * self.stride + x * self.bpp) as usize;

            let wanted = src_stride as usize;
            let room = self.data.len() - dst_offset;
            let left = data.len() - src_offset;
            let copy_len = if wanted <= room && wanted <= left {
                wanted
            } else if room <= left {
                room
            } else {
                left
            };

            if copy_len > 0 {
                copy_octets(&mut self.data, dst_offset, data, src_offset, copy_len);
            } else {
                assert(self.data@ =~= overwritten(
                    self.data@,
                    dst_offset as int,
                    data@.subrange(src_offset as int, src_offset as int),
                ));
            }
            row += 1;
        }
        self.dirty_regions.push(DirtyRegion { x, y, width, height });
    }

    /// Whether the buffer holds a previous frame of the same size.
    pub open spec fn comparable(&self) -> bool {
        self.prev_data matches Some(prev) && prev@.len() == self.data@.len()
    }

    /// Whether the rows can be scanned: row offsets and lengths are computed
    /// in 32 bits and must fit, every row must start within the pixel data,
    /// and the size of all rows together must fit a `usize`.
    pub open spec fn scannable(&self) -> bool {
        let at = self.placement(0, 0, self.width);
        self.height > 0 ==> {
            let last = (self.height - 1) as nat;
            &&& at.row_len() <= u32::MAX
            &&& at.dst_offset(last) <= u32::MAX
            &&& at.dst_offset(last) <= self.data@.len()
            &&& self.height * at.row_len() <= usize::MAX
        }
    }

    /// Whether row `row` differs from the previous frame.
    pub open spec fn changed(&self, row: int) -> bool {
        row_changed(
            self.data@,
            self.prev_data.unwrap()@,
            self.placement(0, 0, self.width),
            row,
        )
    }

    /// Whether the regions are those of the delta between the previous
    /// frame and this one: one for each run of changed rows, top to bottom,
    /// of full width, with the pixels of its rows.
    pub open spec fn is_delta(&self, regions: Seq<RegionSpec>) -> bool {
        &&& marks_changed_rows(regions, |row: int| self.changed(row), self.height as int)
        &&& forall|k: int|
            0 <= k < regions.len() ==> {
                let r = #[trigger] regions[k];
                &&& r.x == 0
                &&& r.width == self.width
                &&& r.data == extracted(
                    self.data@,
                    self.placement(0, r.y, self.width),
                    r.height as nat,
                )
            }
    }

    /// The rows that differ from the previous frame, as regions of full
    /// width: one region for each run of changed rows, top to bottom, with
    /// the pixels of its rows. `None` where there is no previous frame of
    /// the same size, or no row differs.
    pub fn calculate_delta(&mut self) -> (delta: Option<BufferDelta>)
        requires
            old(self).comparable() ==> old(self).scannable(),
        ensures
            *final(self) == *old(self),
            match delta {
                None => !old(self).comparable() || forall|row: int|
                    0 <= row < old(self).height ==> !#[trigger] old(self).changed(row),
                Some(d) => {
                    &&& old(self).comparable()
                    &&& d.buffer_id == old(self).id
                    &&& d.regions@.len() > 0
                    &&& old(self).is_delta(region_specs(d.regions@))
                    &&& d.total_bytes == total_len(region_specs(d.regions@))
                },
            },
    {
        let prev = match &self.prev_data {
            Some(prev) => prev,
            None => {
                return None;
            },
        };
        if prev.len() != self.data.len() {
            return None;
        }
        let ghost at = self.placement(0, 0, self.width);
        let ghost changed = |row: int| self.changed(row);

        let mut regions: Vec<DeltaRegion> = Vec::new();
        let mut total_bytes: usize = 0;

        let mut in_dirty_region = false;
        let mut region_start_y: u32 = 0;

        let mut y: u32 = 0;
        while y < self.height
            invariant
                y <= self.height,
                self.comparable(),
                self.scannable(),
                self.prev_data == Some(*prev),
                at == self.placement(0, 0, self.width),
                changed == (|row: int| self.changed(row)),
                marks_changed_rows(
                    region_specs(regions@),
                    changed,
                    if in_dirty_region {
                        region_start_y as int
                    } else {
                        y as int
                    },
                ),
                in_dirty_region ==> region_start_y < y && forall|row: int|
                    region_start_y <= row < y ==> #[trigger] changed(row),
                in_dirty_region && region_start_y > 0 ==> !changed(region_start_y - 1),
                !in_dirty_region && y > 0 ==> !changed(y - 1),
                forall|k: int|
                    0 <= k < regions@.len() ==> {
                        let r = #[trigger] regions@[k];
                        &&& r.x == 0
                        &&& r.width == self.width
                        &&& r.data@ == extracted(
                            self.data@,
                            self.placement(0, r.y, self.width),
                            r.height as nat,
                        )
                    },
                total_bytes == total_len(region_specs(regions@)),
                total_bytes <= (if in_dirty_region {
                    region_start_y
                } else {
                    y
                }) * at.row_len(),
            decreases self.height - y,
        {
            proof {
                let last = (self.height - 1) as nat;
                lemma_mul_inequality(y as int, last as int, at.stride as int);
                assert(y * at.stride >= 0) by (nonlinear_arith)
                    requires
                        y >= 0,
                        at.stride >= 0,
                ;
                assert(y * at.row_len() <= (y + 1) * at.row_len()) by (nonlinear_arith)
                    requires
                        at.row_len() >= 0,
                ;
            }
            let row_start = (y * self.stride) as usize;
            let row_len = (self.width * self.bpp) as usize;
            let row_end = if row_len <= self.data.len() - row_start {
                row_start + row_len
            } else {
                self.data.len()
            };

            let row_changed = ranges_differ(
                self.data.as_slice(),
                prev.as_slice(),
                row_start,
                row_end,
            );
            assert(row_changed == changed(y as int));

            if row_changed && !in_dirty_region {
                in_dirty_region = true;
                region_start_y = y;
            } else if !row_changed && in_dirty_region {
                in_dirty_region = false;
                let region_height = y - region_start_y;

                proof {
                    self.lemma_rows_extractable(region_start_y, region_height);
                }
                let data = self.extract_region(0, region_start_y, self.width, region_height);
                proof {
                    lemma_extracted_len(
                        self.data@,
                        self.placement(0, region_start_y, self.width),
                        region_height as nat,
                    );
                    assert(region_start_y * at.row_len() + region_height * at.row_len() == y
                        * at.row_len()) by (nonlinear_arith)
                        requires
                            region_start_y + region_height == y,
                    ;
                    assert(y * at.row_len() <= self.height * at.row_len()) by (nonlinear_arith)
                        requires
                            y <= self.height,
                            at.row_len() >= 0,
                    ;
                }
                total_bytes += data.len();

                let ghost before = region_specs(regions@);
                regions.push(
                    DeltaRegion {
                        x: 0,
                        y: region_start_y,
                        width: self.width,
                        height: region_height,
                        data,
                    },
                );
                proof {
                    let after = region_specs(regions@);
                    assert(after.drop_last() =~= before);
                    lemma_run_closed(before, after, changed, region_start_y as int, y as int);
                }
            } else if !row_changed {
                proof {
                    lemma_rows_unchanged(region_specs(regions@), changed, y as int);
                }
            }
            y += 1;
        }

        if in_dirty_region {
            let region_height = self.height - region_start_y;
            proof {
                self.lemma_rows_extractable(region_start_y, region_height);
            }
            let data = self.extract_region(0, region_start_y, self.width, region_height);
            proof {
                lemma_extracted_len(
                    self.data@,
                    self.placement(0, region_start_y, self.width),
                    region_height as nat,
                );
                assert(region_start_y * at.row_len() + region_height * at.row_len() == self.height
                    * at.row_len()) by (nonlinear_arith)
                    requires
                        region_start_y + region_height == self.height,
                ;
            }
            total_bytes += data.len();

            let ghost before = region_specs(regions@);
            regions.push(
                DeltaRegion {
                    x: 0,
                    y: region_start_y,
                    width: self.width,
                    height: region_height,
                    data,
                },
            );
            proof {
                let after = region_specs(regions@);
                assert(after.drop_last() =~= before);
                lemma_run_closed(
                    before,
                    after,
                    changed,
                    region_start_y as int,
                    self.height as int,
                );
            }
        }
        if regions.is_empty() {
            assert forall|row: int| 0 <= row < self.height implies !#[trigger] self.changed(row) by {
                if self.changed(row) {
                    assert(changed(row));
                }
            }
            return None;
        }
        Some(BufferDelta { buffer_id: self.id, regions, total_bytes })
    }

    /// Full-width rows within the buffer's height can be extracted.
    proof fn lemma_rows_extractable(&self, y: u32, height: u32)
        requires
            self.scannable(),
            height > 0,
            y + height <= self.height,
        ensures
            rows_within(self.height, y, height) == height,
            ({
                let at = self.placement(0, y, self.width);
                &&& at.row_len() <= u32::MAX
                &&& at.dst_offset((height - 1) as nat) <= u32::MAX
            }),
    {
        let whole = self.placement(0, 0, self.width);
        let at = self.placement(0, y, self.width);
        lemma_mul_inequality(
            (y + height - 1) as int,
            (self.height - 1) as int,
            self.stride as int,
        );
        assert(0 * at.bpp == 0) by (nonlinear_arith);
        assert(at.dst_offset((height - 1) as nat) <= whole.dst_offset((self.height - 1) as nat));
    }

    /// The pixels of a region, row after row. Rows below the buffer's last
    /// row are left out, and so is a row that does not lie wholly within the
    /// pixel data.
    fn extract_region(&self, x: u32, y: u32, width: u32, height: u32) -> (data: Vec<u8>)
        requires
            ({
                let at = self.placement(x, y, width);
                let rows = rows_within(self.height, y, height);
                rows > 0 ==> {
                    &&& at.row_len() <= u32::MAX
                    &&& at.dst_offset((rows - 1) as nat) <= u32::MAX
                }
            }),
        ensures
            data@ == extracted(
                self.data@,
                self.placement(x, y, width),
                rows_within(self.height, y, height),
            ),
    {
        let ghost at = self.placement(x, y, width);
        let ghost rows = rows_within(self.height, y, height);
        let mut data: Vec<u8> = Vec::new();
        let mut row: u32 = 0;
        while row < height && self.height > y && row < self.height - y
            invariant
                row <= rows,
                rows == rows_within(self.height, y, height),
                at == self.placement(x, y, width),
                rows > 0 ==> {
                    &&& at.row_len() <= u32::MAX
                    &&& at.dst_offset((rows - 1) as nat) <= u32::MAX
                },
                data@ == extracted(self.data@, at, row as nat),
            decreases height - row,
        {
            proof {
                let last = (rows - 1) as nat;
                lemma_mul_inequality((at.y + row) as int, (at.y + last) as int, at.stride as int);
                assert(at.dst_offset(row as nat) <= at.dst_offset(last));
                assert(at.x * at.bpp >= 0) by (nonlinear_arith)
                    requires
                        at.x >= 0,
                        at.bpp >= 0,
                ;
                assert((at.y + row) * at.stride >= 0) by (nonlinear_arith)
                    requires
                        at.y + row >= 0,
                        at.stride >= 0,
                ;
            }
            let src_y: u32 = y + row;
            let src_offset = (src_y * self.stride + x * self.bpp) as usize;
            let copy_len = (width * self.bpp) as usize;

            if copy_len <= self.data.len() && src_offset <= self.data.len() - copy_len {
                let pixels = vstd::slice::slice_subrange(
                    self.data.as_slice(),
                    src_offset,
                    src_offset + copy_len,
                );
                data.extend_from_slice(pixels);
                assert(data@ =~= extracted(self.data@, at, row as nat) + self.data@.subrange(
                    src_offset as int,
                    src_offset + copy_len,
                ));
            }
            row += 1;
        }
        data
    }

    /// Whether every region of a delta can be written.
    pub open spec fn accepts_delta(&self, regions: Seq<RegionSpec>) -> bool {
        forall|k: int|
            0 <= k < regions.len() ==> {
                let r = #[trigger] regions[k];
                self.accepts_region(r.x, r.y, r.width, r.height, r.data.len())
            }
    }

    /// The pixels after the first `count` regions have been written, one
    /// after the other.
    pub open spec fn delta_written(&self, regions: Seq<RegionSpec>, count: nat) -> Seq<u8>
        decreases count,
    {
        if count == 0 {
            self.data@
        } else {
            let r = regions[count - 1];
            region_written(
                self.delta_written(regions, (count - 1) as nat),
                self.placement(r.x, r.y, r.width),
                r.data,
                rows_within(self.height, r.y, r.height),
            )
        }
    }

    /// Writes the regions of a delta, in order. Afterwards nothing is dirty.
    pub fn apply_delta(&mut self, delta: &BufferDelta)
        requires
            old(self).accepts_delta(region_specs(delta.regions@)),
        ensures
            final(self).same_layout(old(self)),
            final(self).prev_data == old(self).prev_data,
            final(self).dirty_regions@ == Seq::<DirtyRegion>::empty(),
            final(self).data@ == old(self).delta_written(
                region_specs(delta.regions@),
                delta.regions@.len(),
            ),
            final(self).data@.len() == old(self).data@.len(),
    {
        let ghost specs = region_specs(delta.regions@);
        let mut i: usize = 0;
        while i < delta.regions.len()
            invariant
                i <= delta.regions@.len(),
                specs == region_specs(delta.regions@),
                old(self).accepts_delta(specs),
                self.same_layout(old(self)),
                self.prev_data == old(self).prev_data,
                self.data@.len() == old(self).data@.len(),
                self.data@ == old(self).delta_written(specs, i as nat),
            decreases delta.regions@.len() - i,
        {
            let region = &delta.regions[i];
            assert(specs[i as int] == region@);
            self.update_region(
                region.x,
                region.y,
                region.width,
                region.height,
                region.data.as_slice(),
            );
            i += 1;
        }
        self.dirty_regions.clear();
    }

    /// Forgets the dirty regions.
    pub fn clear_dirty(&mut self)
        ensures
            final(self).same_layout(old(self)),
            final(self).data == old(self).data,
            final(self).prev_data == old(self).prev_data,
            final(self).dirty_regions@ == Seq::<DirtyRegion>::empty(),
    {
        self.dirty_regions.clear();
    }
}

} // verus!
