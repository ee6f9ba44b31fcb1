//! The off-screen frame buffer: a fixed-size, row-major, 16-bit-per-pixel
//! (big-endian) byte buffer with whole-buffer fill, clipped single-pixel
//! writes, and bounds-checked rectangular block copies.

use vstd::prelude::*;
use crate::region::Region;

verus! {

/// Index of the first byte of the pixel at `(x, y)` in a row-major buffer of
/// stride `width` pixels, two bytes per pixel.
pub open spec fn byte_index(width: int, x: int, y: int) -> int {
    2 * (y * width + x)
}

/// The buffer contents after every pixel is overwritten with `color`:
/// alternating high and low color bytes.
pub open spec fn spec_fill_bytes(len: nat, color: u16) -> Seq<u8> {
    Seq::new(len, |k: int| if k % 2 == 0 { (color >> 8) as u8 } else { (color & 0xff) as u8 })
}

/// The buffer contents after a clipped write of `color` to pixel `(x, y)`:
/// out-of-bounds coordinates leave the buffer unchanged.
pub open spec fn spec_write_pixel(buf: Seq<u8>, width: int, height: int, x: int, y: int, color: u16) -> Seq<u8> {
    if 0 <= x < width && 0 <= y < height {
        buf.update(byte_index(width, x, y), (color >> 8) as u8).update(
            byte_index(width, x, y) + 1,
            (color & 0xff) as u8,
        )
    } else {
        buf
    }
}

/// The buffer contents after `len` bytes of `src` starting at `src_start`
/// are copied over `dst` starting at `dst_start`.
pub open spec fn spec_copy_row(dst: Seq<u8>, src: Seq<u8>, src_start: int, dst_start: int, len: int) -> Seq<u8> {
    Seq::new(dst.len(), |k: int| if dst_start <= k < dst_start + len {
        src[k - dst_start + src_start]
    } else {
        dst[k]
    })
}

/// The buffer contents after a `w` x `h` pixel block of `src` at
/// `(src_x, src_y)` is copied row by row over `dst` at `(dst_x, dst_y)`;
/// both buffers have stride `width`.
pub open spec fn spec_copy_region(
    dst: Seq<u8>,
    src: Seq<u8>,
    width: int,
    src_x: int,
    src_y: int,
    w: int,
    h: int,
    dst_x: int,
    dst_y: int,
) -> Seq<u8>
    decreases h,
{
    if h <= 0 {
        dst
    } else {
        let prev = spec_copy_region(dst, src, width, src_x, src_y, w, h - 1, dst_x, dst_y);
        spec_copy_row(
            prev,
            src,
            byte_index(width, src_x, src_y + h - 1),
            byte_index(width, dst_x, dst_y + h - 1),
            2 * w,
        )
    }
}

/// A fixed-size 16-bit-per-pixel frame buffer. The backing store is handed in
/// once at construction and never grows or shrinks.
pub struct FrameBuffer {
    buffer: Vec<u8>,
    width: u32,
    height: u32,
}

impl View for FrameBuffer {
    type V = Seq<u8>;

    closed spec fn view(&self) -> Seq<u8> {
        self.buffer@
    }
}

impl FrameBuffer {
    /// Width of the buffer in pixels.
    pub closed spec fn spec_width(&self) -> u32 {
        self.width
    }

    /// Height of the buffer in pixels.
    pub closed spec fn spec_height(&self) -> u32 {
        self.height
    }

    /// Well-formedness: non-degenerate dimensions that fit the panel's
    /// 16-bit coordinate space, and a backing store of exactly
    /// `width * height` pixels at two bytes each.
    pub closed spec fn wf(&self) -> bool {
        &&& 1 <= self.width <= 0xFFFF
        &&& 1 <= self.height <= 0xFFFF
        &&& self.buffer@.len() == 2 * self.width * self.height
    }

    /// Well-formedness pins the buffer's geometry: the dimensions are
    /// non-degenerate, fit the panel's 16-bit coordinate space, and the
    /// backing store holds exactly `width * height` pixels at two bytes
    /// each.
    pub proof fn lemma_wf_size(&self)
        requires
            self.wf(),
        ensures
            self@.len() == 2 * self.spec_width() * self.spec_height(),
            1 <= self.spec_width() <= 0xFFFF,
            1 <= self.spec_height() <= 0xFFFF,
    {
    }

    /// Creates a frame buffer over the given backing store.
    pub fn new(buffer: Vec<u8>, width: u32, height: u32) -> (r: Self)
        requires
            1 <= width <= 0xFFFF,
            1 <= height <= 0xFFFF,
            buffer@.len() == 2 * width * height,
        ensures
            r.wf(),
            r.spec_width() == width,
            r.spec_height() == height,
            r@ == buffer@,
    {
        FrameBuffer { buffer, width, height }
    }

    /// Width of the buffer in pixels.
    pub fn width(&self) -> (r: u32)
        ensures
            r == self.spec_width(),
    {
        self.width
    }

    /// Height of the buffer in pixels.
    pub fn height(&self) -> (r: u32)
        ensures
            r == self.spec_height(),
    {
        self.height
    }

    /// Read-only access to the raw pixel bytes.
    pub fn get_buffer(&self) -> (r: &[u8])
        ensures
            r@ == self@,
    {
        self.buffer.as_slice()
    }

    /// Overwrites every pixel with `color`, high byte first. Used once at
    /// startup; per-frame clearing is replaced by targeted region
    /// restoration.
    pub fn clear(&mut self, color: u16)
        requires
            old(self).wf(),
        ensures
            final(self).wf(),
            final(self).spec_width() == old(self).spec_width(),
            final(self).spec_height() == old(self).spec_height(),
            final(self)@ == spec_fill_bytes(old(self)@.len(), color),
    {
        let high: u8 = (color >> 8) as u8;
        let low: u8 = (color & 0xff) as u8;
        let n = self.buffer.len();
        proof {
            vstd::arithmetic::div_mod::lemma_mod_multiples_basic(
                (self.width as int) * (self.height as int),
                2,
            );
            assert(n as int == ((self.width as int) * (self.height as int)) * 2)
                by (nonlinear_arith)
                requires
                    n as int == 2 * (self.width as int) * (self.height as int),
            ;
        }
        let mut k: usize = 0;
        while k < n
            invariant
                n == self.buffer@.len(),
                k <= n,
                k % 2 == 0,
                n % 2 == 0,
                self.width == old(self).width,
                self.height == old(self).height,
                old(self).wf(),
                n == 2 * self.width * self.height,
                high == (color >> 8) as u8,
                low == (color & 0xff) as u8,
                forall|j: int| 0 <= j < k ==> self.buffer@[j] == spec_fill_bytes(n as nat, color)[j],
            decreases n - k,
        {
            self.buffer.set(k, high);
            self.buffer.set(k + 1, low);
            k = k + 2;
        }
        proof {
            assert(self.buffer@ =~= spec_fill_bytes(old(self)@.len(), color));
        }
    }

    /// Bounds-checked single-pixel write: coordinates outside
    /// `[0, width) x [0, height)` are silently ignored (clipping), so a
    /// drawing primitive composed on top may emit off-screen pixels freely.
    pub fn write_pixel(&mut self, x: i32, y: i32, color: u16)
        requires
            old(self).wf(),
        ensures
            final(self).wf(),
            final(self).spec_width() == old(self).spec_width(),
            final(self).spec_height() == old(self).spec_height(),
            final(self)@ == spec_write_pixel(
                old(self)@,
                old(self).spec_width() as int,
                old(self).spec_height() as int,
                x as int,
                y as int,
                color,
            ),
            !(0 <= x < old(self).spec_width() && 0 <= y < old(self).spec_height()) ==> final(self)@
                == old(self)@,
    {
        if x >= 0 && y >= 0 && (x as u32) < self.width && (y as u32) < self.height {
            let n = self.buffer.len();
            proof {
                assert((y as int) * (self.width as int) + (x as int) >= 0 && 2 * ((y as int) * (
                self.width as int) + (x as int)) + 1 < n as int) by (nonlinear_arith)
                    requires
                        0 <= (x as int) && (x as int) < (self.width as int),
                        0 <= (y as int) && (y as int) < (self.height as int),
                        n as int == 2 * (self.width as int) * (self.height as int),
                ;
            }
            let idx: usize = ((y as usize) * (self.width as usize) + (x as usize)) * 2;
            self.buffer.set(idx, (color >> 8) as u8);
            self.buffer.set(idx + 1, (color & 0xff) as u8);
        }
    }
    /// Byte-for-byte row-wise copy of a rectangular sub-area of `src_buffer`
    /// (same stride as this buffer) into this buffer at `(dest_x, dest_y)`.
    /// Both rectangles must lie inside the buffer extents: a partial or
    /// overlapping copy cannot be safely clipped, so callers compute regions
    /// from buffer geometry.
    pub fn copy_region(
        &mut self,
        src_buffer: &[u8],
        src_x: u16,
        src_y: u16,
        src_width: u32,
        src_height: u32,
        dest_x: u16,
        dest_y: u16,
    )
        requires
            old(self).wf(),
            src_buffer@.len() == old(self)@.len(),
            src_x + src_width <= old(self).spec_width(),
            src_y + src_height <= old(self).spec_height(),
            dest_x + src_width <= old(self).spec_width(),
            dest_y + src_height <= old(self).spec_height(),
        ensures
            final(self).wf(),
            final(self).spec_width() == old(self).spec_width(),
            final(self).spec_height() == old(self).spec_height(),
            final(self)@ == spec_copy_region(
                old(self)@,
                src_buffer@,
                old(self).spec_width() as int,
                src_x as int,
                src_y as int,
                src_width as int,
                src_height as int,
                dest_x as int,
                dest_y as int,
            ),
    {
        let width = self.width as usize;
        let n = self.buffer.len();
        let mut row: u32 = 0;
        while row < src_height
            invariant
                old(self).wf(),
                self.width == old(self).width,
                self.height == old(self).height,
                width == self.width as usize,
                n == self.buffer@.len(),
                n == 2 * self.width * self.height,
                src_buffer@.len() == n,
                row <= src_height,
                src_x + src_width <= self.width,
                src_y + src_height <= self.height,
                dest_x + src_width <= self.width,
                dest_y + src_height <= self.height,
                self.buffer@ == spec_copy_region(
                    old(self)@,
                    src_buffer@,
                    self.width as int,
                    src_x as int,
                    src_y as int,
                    src_width as int,
                    row as int,
                    dest_x as int,
                    dest_y as int,
                ),
            decreases src_height - row,
        {
            proof {
                assert(((src_y as int + row) * (width as int) + src_x) * 2 + 2 * (src_width as int)
                    <= n as int && (src_y as int + row) * (width as int) >= 0) by (nonlinear_arith)
                    requires
                        0 <= src_x as int,
                        0 <= src_y as int,
                        0 <= row < src_height as int,
                        src_x as int + src_width as int <= width as int,
                        src_y as int + src_height as int <= self.height as int,
                        n as int == 2 * (width as int) * (self.height as int),
                ;
                assert(((dest_y as int + row) * (width as int) + dest_x) * 2 + 2 * (src_width
                    as int) <= n as int && (dest_y as int + row) * (width as int) >= 0)
                    by (nonlinear_arith)
                    requires
                        0 <= dest_x as int,
                        0 <= dest_y as int,
                        0 <= row < src_height as int,
                        dest_x as int + src_width as int <= width as int,
                        dest_y as int + src_height as int <= self.height as int,
                        n as int == 2 * (width as int) * (self.height as int),
                ;
            }
            let src_row_start: usize = ((src_y as usize + row as usize) * width + src_x as usize)
                * 2;
            let dst_row_start: usize = ((dest_y as usize + row as usize) * width + dest_x as usize)
                * 2;
            let row_len: usize = (src_width as usize) * 2;
            let ghost prev: Seq<u8> = self.buffer@;
            let mut col: usize = 0;
            while col < row_len
                invariant
                    self.width == old(self).width,
                    self.height == old(self).height,
                    col <= row_len,
                    n == self.buffer@.len(),
                    src_buffer@.len() == n,
                    src_row_start + row_len <= n,
                    dst_row_start + row_len <= n,
                    prev.len() == n,
                    forall|k: int|
                        dst_row_start <= k < dst_row_start + col ==> self.buffer@[k]
                            == src_buffer@[k - dst_row_start + src_row_start],
                    forall|k: int|
                        0 <= k < n && !(dst_row_start <= k < dst_row_start + col)
                            ==> self.buffer@[k] == prev[k],
                decreases row_len - col,
            {
                let b: u8 = *vstd::slice::slice_index_get(src_buffer, src_row_start + col);
                self.buffer.set(dst_row_start + col, b);
                col = col + 1;
            }
            proof {
                assert(self.buffer@ =~= spec_copy_row(
                    prev,
                    src_buffer@,
                    src_row_start as int,
                    dst_row_start as int,
                    row_len as int,
                ));
            }
            row = row + 1;
        }
    }

    /// Restores every listed region from `src_buffer` into this buffer, in
    /// slot order: each occupied slot is copied with identical source and
    /// destination coordinates.
    pub fn copy_regions(&mut self, src_buffer: &[u8], regions: &[Option<Region>])
        requires
            old(self).wf(),
            src_buffer@.len() == old(self)@.len(),
            forall|i: int|
                0 <= i < regions@.len() && regions@[i] is Some ==> region_in_bounds(
                    regions@[i].unwrap(),
                    old(self).spec_width() as int,
                    old(self).spec_height() as int,
                ),
        ensures
            final(self).wf(),
            final(self).spec_width() == old(self).spec_width(),
            final(self).spec_height() == old(self).spec_height(),
            final(self)@ == spec_copy_opt_regions(
                old(self)@,
                src_buffer@,
                old(self).spec_width() as int,
                regions@,
            ),
    {
        let mut i: usize = 0;
        while i < regions.len()
            invariant
                old(self).wf(),
                self.wf(),
                self.width == old(self).width,
                self.height == old(self).height,
                self@.len() == old(self)@.len(),
                src_buffer@.len() == old(self)@.len(),
                i <= regions@.len(),
                forall|j: int|
                    0 <= j < regions@.len() && regions@[j] is Some ==> region_in_bounds(
                        regions@[j].unwrap(),
                        self.spec_width() as int,
                        self.spec_height() as int,
                    ),
                self@ == spec_copy_opt_regions(
                    old(self)@,
                    src_buffer@,
                    self.spec_width() as int,
                    regions@.take(i as int),
                ),
            decreases regions@.len() - i,
        {
            proof {
                assert(regions@.take(i + 1).drop_last() =~= regions@.take(i as int));
                assert(regions@.take(i + 1).last() == regions@[i as int]);
            }
            let slot: Option<Region> = *vstd::slice::slice_index_get(regions, i);
            match slot {
                Some(region) => {
                    self.copy_region(
                        src_buffer,
                        region.x,
                        region.y,
                        region.width,
                        region.height,
                        region.x,
                        region.y,
                    );
                },
                None => {},
            }
            i = i + 1;
        }
        proof {
            assert(regions@.take(regions@.len() as int) =~= regions@);
        }
    }
}

/// Whether `r` lies entirely inside a `width` x `height` buffer.
pub open spec fn region_in_bounds(r: Region, width: int, height: int) -> bool {
    &&& r.x + r.width <= width
    &&& r.y + r.height <= height
}

/// Index of the first byte of row `row` of the rectangle whose top-left
/// pixel is `(x, y)`, in a buffer of stride `width`.
pub open spec fn row_start_byte(width: int, x: int, y: int, row: int) -> int {
    byte_index(width, x, y + row)
}

/// Whether byte position `k` lies inside the row-major byte footprint of the
/// `w` x `h` pixel rectangle at `(x, y)` in a buffer of stride `width`.
pub open spec fn in_region_bytes(width: int, x: int, y: int, w: int, h: int, k: int) -> bool {
    exists|row: int|
        0 <= row < h && #[trigger] row_start_byte(width, x, y, row) <= k < row_start_byte(
            width,
            x,
            y,
            row,
        ) + 2 * w
}

/// A rectangular copy preserves the buffer length.
pub proof fn lemma_copy_region_len(
    dst: Seq<u8>,
    src: Seq<u8>,
    width: int,
    src_x: int,
    src_y: int,
    w: int,
    h: int,
    dst_x: int,
    dst_y: int,
)
    ensures
        spec_copy_region(dst, src, width, src_x, src_y, w, h, dst_x, dst_y).len() == dst.len(),
    decreases h,
{
    if h > 0 {
        lemma_copy_region_len(dst, src, width, src_x, src_y, w, h - 1, dst_x, dst_y);
    }
}

/// A rectangular copy leaves every byte outside the destination rectangle's
/// footprint unchanged.
pub proof fn lemma_copy_region_outside(
    dst: Seq<u8>,
    src: Seq<u8>,
    width: int,
    src_x: int,
    src_y: int,
    w: int,
    h: int,
    dst_x: int,
    dst_y: int,
    k: int,
)
    requires
        0 <= k < dst.len(),
        !in_region_bytes(width, dst_x, dst_y, w, h, k),
    ensures
        spec_copy_region(dst, src, width, src_x, src_y, w, h, dst_x, dst_y)[k] == dst[k],
    decreases h,
{
    if h > 0 {
        assert(!(row_start_byte(width, dst_x, dst_y, h - 1) <= k < row_start_byte(
            width,
            dst_x,
            dst_y,
            h - 1,
        ) + 2 * w));
        assert(!in_region_bytes(width, dst_x, dst_y, w, h - 1, k)) by {
            if in_region_bytes(width, dst_x, dst_y, w, h - 1, k) {
                let row = choose|row: int|
                    0 <= row < h - 1 && #[trigger] row_start_byte(width, dst_x, dst_y, row) <= k
                        < row_start_byte(width, dst_x, dst_y, row) + 2 * w;
                assert(0 <= row < h && row_start_byte(width, dst_x, dst_y, row) <= k
                    < row_start_byte(width, dst_x, dst_y, row) + 2 * w);
            }
        }
        lemma_copy_region_outside(dst, src, width, src_x, src_y, w, h - 1, dst_x, dst_y, k);
        lemma_copy_region_len(dst, src, width, src_x, src_y, w, h - 1, dst_x, dst_y);
    }
}

/// A rectangular copy fills every byte of the destination rectangle's
/// footprint with the corresponding source byte: byte `off` of destination
/// row `row` comes from byte `off` of source row `row`.
pub proof fn lemma_copy_region_inside(
    dst: Seq<u8>,
    src: Seq<u8>,
    width: int,
    height: int,
    src_x: int,
    src_y: int,
    w: int,
    h: int,
    dst_x: int,
    dst_y: int,
    row: int,
    off: int,
)
    requires
        dst.len() == 2 * width * height,
        src.len() == dst.len(),
        0 <= src_x,
        0 <= src_y,
        0 <= dst_x,
        0 <= dst_y,
        src_x + w <= width,
        src_y + h <= height,
        dst_x + w <= width,
        dst_y + h <= height,
        0 <= row < h,
        0 <= off < 2 * w,
    ensures
        spec_copy_region(dst, src, width, src_x, src_y, w, h, dst_x, dst_y)[byte_index(
            width,
            dst_x,
            dst_y + row,
        ) + off] == src[byte_index(width, src_x, src_y + row) + off],
    decreases h,
{
    let k = byte_index(width, dst_x, dst_y + row) + off;
    let prev = spec_copy_region(dst, src, width, src_x, src_y, w, h - 1, dst_x, dst_y);
    lemma_copy_region_len(dst, src, width, src_x, src_y, w, h - 1, dst_x, dst_y);
    assert(byte_index(width, src_x, src_y + h - 1) + 2 * w <= src.len() && byte_index(
        width,
        src_x,
        src_y + h - 1,
    ) >= 0) by (nonlinear_arith)
        requires
            src.len() == 2 * width * height,
            0 <= src_x,
            0 <= src_y,
            src_x + w <= width,
            src_y + h <= height,
            0 < h,
            0 <= w,
    ;
    assert(byte_index(width, dst_x, dst_y + row) >= 0 && byte_index(width, dst_x, dst_y + row) + 2
        * w <= dst.len()) by (nonlinear_arith)
        requires
            dst.len() == 2 * width * height,
            0 <= dst_x,
            0 <= dst_y,
            dst_x + w <= width,
            dst_y + h <= height,
            0 <= row < h,
            0 <= w,
    ;
    if row == h - 1 {
        assert(k - byte_index(width, dst_x, dst_y + h - 1) + byte_index(width, src_x, src_y + h - 1)
            == byte_index(width, src_x, src_y + row) + off);
    } else {
        assert(byte_index(width, dst_x, dst_y + row) + 2 * w <= byte_index(
            width,
            dst_x,
            dst_y + h - 1,
        )) by (nonlinear_arith)
            requires
                0 <= row < h - 1,
                0 <= w,
                dst_x + w <= width,
                0 <= dst_x,
        ;
        lemma_copy_region_inside(
            dst,
            src,
            width,
            height,
            src_x,
            src_y,
            w,
            h - 1,
            dst_x,
            dst_y,
            row,
            off,
        );
    }
}

/// The buffer contents after a sequence of clipped single-pixel writes,
/// applied in order: each element is a coordinate pair and a color.
pub open spec fn spec_apply_writes(
    buf: Seq<u8>,
    width: int,
    height: int,
    writes: Seq<(int, int, u16)>,
) -> Seq<u8>
    decreases writes.len(),
{
    if writes.len() == 0 {
        buf
    } else {
        let prev = spec_apply_writes(buf, width, height, writes.drop_last());
        spec_write_pixel(
            prev,
            width,
            height,
            writes.last().0,
            writes.last().1,
            writes.last().2,
        )
    }
}

/// Pixel writes preserve the buffer length.
pub proof fn lemma_apply_writes_len(
    buf: Seq<u8>,
    width: int,
    height: int,
    writes: Seq<(int, int, u16)>,
)
    requires
        buf.len() == 2 * width * height,
    ensures
        spec_apply_writes(buf, width, height, writes).len() == buf.len(),
    decreases writes.len(),
{
    if writes.len() > 0 {
        lemma_apply_writes_len(buf, width, height, writes.drop_last());
        let wx = writes.last().0;
        let wy = writes.last().1;
        if 0 <= wx < width && 0 <= wy < height {
            assert(0 <= 2 * (wy * width + wx) && 2 * (wy * width + wx) + 1 < 2 * width * height)
                by (nonlinear_arith)
                requires
                    0 <= wx < width,
                    0 <= wy < height,
            ;
        }
    }
}

/// Pixel writes that all land inside a rectangle leave every byte outside
/// that rectangle's footprint unchanged.
pub proof fn lemma_apply_writes_outside(
    buf: Seq<u8>,
    width: int,
    height: int,
    x: int,
    y: int,
    w: int,
    h: int,
    writes: Seq<(int, int, u16)>,
    k: int,
)
    requires
        buf.len() == 2 * width * height,
        0 <= x,
        0 <= y,
        x + w <= width,
        y + h <= height,
        forall|i: int|
            0 <= i < writes.len() ==> x <= #[trigger] writes[i].0 < x + w && y <= writes[i].1 < y
                + h,
        0 <= k < buf.len(),
        !in_region_bytes(width, x, y, w, h, k),
    ensures
        spec_apply_writes(buf, width, height, writes)[k] == buf[k],
    decreases writes.len(),
{
    if writes.len() > 0 {
        let prev = spec_apply_writes(buf, width, height, writes.drop_last());
        let wx = writes.last().0;
        let wy = writes.last().1;
        lemma_apply_writes_len(buf, width, height, writes.drop_last());
        lemma_apply_writes_outside(buf, width, height, x, y, w, h, writes.drop_last(), k);
        assert(writes[writes.len() - 1] == writes.last());
        assert(0 <= byte_index(width, wx, wy) && byte_index(width, wx, wy) + 1 < buf.len())
            by (nonlinear_arith)
            requires
                0 <= wx < width,
                0 <= wy < height,
                buf.len() == 2 * width * height,
        ;
        // the written pixel's two bytes lie inside the rectangle's footprint,
        // in row `wy - y`
        let row = wy - y;
        assert(row_start_byte(width, x, y, row) == 2 * (wy * width + x));
        assert(byte_index(width, wx, wy) == 2 * (wy * width + wx));
        assert(0 <= row < h && row_start_byte(width, x, y, row) <= byte_index(width, wx, wy)
            < row_start_byte(width, x, y, row) + 2 * w);
        assert(0 <= row < h && row_start_byte(width, x, y, row) <= byte_index(width, wx, wy) + 1
            < row_start_byte(width, x, y, row) + 2 * w);
        assert(k != byte_index(width, wx, wy) && k != byte_index(width, wx, wy) + 1);
    }
}

/// Restoring a region from a source buffer, then drawing arbitrary pixels
/// only inside that region, then restoring again, yields exactly the state
/// after the first restore: inside the region the bytes equal the source's,
/// and outside it nothing was ever touched.
pub proof fn lemma_round_trip_restore(
    dst: Seq<u8>,
    src: Seq<u8>,
    width: int,
    height: int,
    r: Region,
    writes: Seq<(int, int, u16)>,
)
    requires
        dst.len() == 2 * width * height,
        src.len() == dst.len(),
        region_in_bounds(r, width, height),
        forall|i: int|
            0 <= i < writes.len() ==> r.x <= #[trigger] writes[i].0 < r.x + r.width && r.y
                <= writes[i].1 < r.y + r.height,
    ensures
        ({
            let restored = spec_copy_region(
                dst,
                src,
                width,
                r.x as int,
                r.y as int,
                r.width as int,
                r.height as int,
                r.x as int,
                r.y as int,
            );
            let drawn = spec_apply_writes(restored, width, height, writes);
            spec_copy_region(
                drawn,
                src,
                width,
                r.x as int,
                r.y as int,
                r.width as int,
                r.height as int,
                r.x as int,
                r.y as int,
            ) == restored
        }),
{
    let x = r.x as int;
    let y = r.y as int;
    let w = r.width as int;
    let h = r.height as int;
    let restored = spec_copy_region(dst, src, width, x, y, w, h, x, y);
    let drawn = spec_apply_writes(restored, width, height, writes);
    let restored2 = spec_copy_region(drawn, src, width, x, y, w, h, x, y);
    lemma_copy_region_len(dst, src, width, x, y, w, h, x, y);
    lemma_apply_writes_len(restored, width, height, writes);
    lemma_copy_region_len(drawn, src, width, x, y, w, h, x, y);
    assert forall|k: int| 0 <= k < restored2.len() implies restored2[k] == restored[k] by {
        if in_region_bytes(width, x, y, w, h, k) {
            let row = choose|row: int|
                0 <= row < h && #[trigger] row_start_byte(width, x, y, row) <= k < row_start_byte(
                    width,
                    x,
                    y,
                    row,
                ) + 2 * w;
            let off = k - row_start_byte(width, x, y, row);
            lemma_copy_region_inside(drawn, src, width, height, x, y, w, h, x, y, row, off);
            lemma_copy_region_inside(dst, src, width, height, x, y, w, h, x, y, row, off);
        } else {
            lemma_copy_region_outside(drawn, src, width, x, y, w, h, x, y, k);
            lemma_apply_writes_outside(restored, width, height, x, y, w, h, writes, k);
        }
    }
    assert(restored2 =~= restored);
}

/// The buffer contents after every occupied slot of `regions` is restored
/// from `src`, in slot order, each with identical source and destination
/// coordinates.
pub open spec fn spec_copy_opt_regions(
    dst: Seq<u8>,
    src: Seq<u8>,
    width: int,
    regions: Seq<Option<Region>>,
) -> Seq<u8>
    decreases regions.len(),
{
    if regions.len() == 0 {
        dst
    } else {
        let prev = spec_copy_opt_regions(dst, src, width, regions.drop_last());
        match regions.last() {
            Some(r) => spec_copy_region(
                prev,
                src,
                width,
                r.x as int,
                r.y as int,
                r.width as int,
                r.height as int,
                r.x as int,
                r.y as int,
            ),
            None => prev,
        }
    }
}

} // verus!
