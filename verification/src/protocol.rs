//! The wire protocol of the display driver, as sequences of port actions:
//! what one command, one data burst, one address window, or one chunked
//! byte stream looks like on the transport.

use vstd::prelude::*;
use crate::buffer::byte_index;
use crate::instruction::Instruction;
use crate::region::Region;
use crate::transport::TxEvent;
use crate::transport::spi_concat;

verus! {

/// Bytes per transport burst when a pixel stream is chunked. The transport
/// call has per-invocation overhead and a bounded atomic transfer size; the
/// value is a tunable constant, not a protocol requirement.
pub const STREAM_CHUNK_SIZE: usize = 32;

/// The big-endian byte pair of a 16-bit word.
pub open spec fn be_word(v: u16) -> Seq<u8> {
    seq![(v >> 8) as u8, (v & 0xff) as u8]
}

/// The port actions of one data burst: select the chip with the
/// data/command line high, send the bytes, release the chip.
pub open spec fn data_events(d: Seq<u8>) -> Seq<TxEvent> {
    seq![
        TxEvent::Cs(true),
        TxEvent::Dc(true),
        TxEvent::Cs(false),
        TxEvent::Spi(d),
        TxEvent::Cs(true),
    ]
}

/// The port actions of one command: select the chip with the data/command
/// line low, send the command byte, send any parameters as a data burst,
/// release the chip.
pub open spec fn command_events(c: u8, params: Seq<u8>) -> Seq<TxEvent> {
    let head = seq![
        TxEvent::Cs(true),
        TxEvent::Dc(false),
        TxEvent::Cs(false),
        TxEvent::Spi(seq![c]),
    ];
    if params.len() == 0 {
        head + seq![TxEvent::Cs(true)]
    } else {
        head + seq![TxEvent::Dc(true)] + data_events(params) + seq![TxEvent::Cs(true)]
    }
}

/// The port actions of one 16-bit word sent big-endian as a data burst.
pub open spec fn word_events(v: u16) -> Seq<TxEvent> {
    data_events(be_word(v))
}

/// The port actions that set the address window to the inclusive rectangle
/// `(sx, sy) ..= (ex, ey)`, each coordinate offset by the global calibration
/// pair `(dx, dy)`: a column address set command followed by the start and
/// end columns, then a row address set command with the same pattern.
pub open spec fn window_events(sx: u16, sy: u16, ex: u16, ey: u16, dx: u16, dy: u16) -> Seq<
    TxEvent,
> {
    command_events(Instruction::CaSet.spec_code(), Seq::empty()) + seq![TxEvent::Dc(true)]
        + word_events((sx + dx) as u16) + word_events((ex + dx) as u16) + command_events(
        Instruction::RaSet.spec_code(),
        Seq::empty(),
    ) + seq![TxEvent::Dc(true)] + word_events((sy + dy) as u16) + word_events((ey + dy) as u16)
}

/// The port actions of a byte run sent in bursts of at most `chunk` bytes,
/// front to back.
pub open spec fn chunked_data_events(bytes: Seq<u8>, chunk: nat) -> Seq<TxEvent>
    decreases bytes.len(),
{
    if chunk == 0 || bytes.len() == 0 {
        Seq::empty()
    } else if bytes.len() <= chunk {
        data_events(bytes)
    } else {
        data_events(bytes.take(chunk as int)) + chunked_data_events(
            bytes.skip(chunk as int),
            chunk,
        )
    }
}

/// The 512-pixel color run used when filling the screen: alternating high
/// and low bytes of `color`.
pub open spec fn fill_chunk_bytes(color: u16) -> Seq<u8> {
    Seq::new(
        1024,
        |k: int|
            if k % 2 == 0 {
                (color >> 8) as u8
            } else {
                (color & 0xff) as u8
            },
    )
}

/// `n` repetitions of the same data burst.
pub open spec fn repeat_data_events(d: Seq<u8>, n: nat) -> Seq<TxEvent>
    decreases n,
{
    if n == 0 {
        Seq::empty()
    } else {
        repeat_data_events(d, (n - 1) as nat) + data_events(d)
    }
}

/// The port actions that fill the whole `width` x `height` panel with one
/// color: an address window over the full panel, the memory write command,
/// then the color run sent in 512-pixel bursts with a final partial burst
/// for the remainder.
pub open spec fn clear_events(color: u16, width: u32, height: u32, dx: u16, dy: u16) -> Seq<
    TxEvent,
> {
    let total = width as int * height as int;
    window_events(0, 0, (width - 1) as u16, (height - 1) as u16, dx, dy) + command_events(
        Instruction::RamWr.spec_code(),
        Seq::empty(),
    ) + seq![TxEvent::Dc(true)] + repeat_data_events(fill_chunk_bytes(color), (total / 512) as nat)
        + if total % 512 > 0 {
        data_events(fill_chunk_bytes(color).take(2 * (total % 512)))
    } else {
        Seq::empty()
    }
}

/// The port actions that set one pixel: an address window of a single
/// pixel, the memory write command, then the color word.
pub open spec fn pixel_events(x: u16, y: u16, color: u16, dx: u16, dy: u16) -> Seq<TxEvent> {
    window_events(x, y, x, y, dx, dy) + command_events(Instruction::RamWr.spec_code(), Seq::empty())
        + seq![TxEvent::Dc(true)] + word_events(color)
}

/// The port actions that draw a full-panel image: an address window over
/// the whole panel, the memory write command, then the image bytes in
/// bursts of at most `STREAM_CHUNK_SIZE` bytes.
pub open spec fn draw_image_events(img: Seq<u8>, width: u32, height: u32, dx: u16, dy: u16) -> Seq<
    TxEvent,
> {
    window_events(0, 0, (width - 1) as u16, (height - 1) as u16, dx, dy) + command_events(
        Instruction::RamWr.spec_code(),
        Seq::empty(),
    ) + seq![TxEvent::Dc(true)] + chunked_data_events(img, STREAM_CHUNK_SIZE as nat)
}

/// The port actions that push a full frame: an address window spanning the
/// entire `width` x `height` panel, offset by the calibration pair like
/// every other window, the memory write command, then the whole buffer in
/// one burst.
pub open spec fn show_events(buf: Seq<u8>, width: u32, height: u32, dx: u16, dy: u16) -> Seq<
    TxEvent,
> {
    window_events(0, 0, (width - 1) as u16, (height - 1) as u16, dx, dy) + command_events(
        Instruction::RamWr.spec_code(),
        Seq::empty(),
    ) + data_events(buf)
}

/// The bytes of one row of a `w`-pixel-wide rectangle whose top-left pixel
/// is `(x, y)`, in a row-major buffer of stride `stride` pixels.
pub open spec fn region_row_bytes(buf: Seq<u8>, stride: int, x: int, y: int, w: int) -> Seq<u8> {
    buf.subrange(byte_index(stride, x, y), byte_index(stride, x, y) + 2 * w)
}

/// The port actions that stream the first `rows` rows of a `w`-pixel-wide
/// rectangle at `(x, y)`, each row sent as its own chunked run: the source
/// buffer's stride is the full panel width, so each row is a separate
/// contiguous slice.
pub open spec fn rows_events(buf: Seq<u8>, stride: int, x: int, y: int, w: int, rows: nat) -> Seq<
    TxEvent,
>
    decreases rows,
{
    if rows == 0 {
        Seq::empty()
    } else {
        rows_events(buf, stride, x, y, w, (rows - 1) as nat) + chunked_data_events(
            region_row_bytes(buf, stride, x, y + rows - 1, w),
            STREAM_CHUNK_SIZE as nat,
        )
    }
}

/// The port actions that update one `w` x `h` region at `(x, y)` from a
/// full-frame buffer of stride `stride`: an address window over exactly the
/// region, the memory write command, then the region's rows.
pub open spec fn region_events(
    buf: Seq<u8>,
    stride: int,
    x: u16,
    y: u16,
    w: u32,
    h: u32,
    dx: u16,
    dy: u16,
) -> Seq<TxEvent> {
    window_events(x, y, (x + w - 1) as u16, (y + h - 1) as u16, dx, dy) + command_events(
        Instruction::RamWr.spec_code(),
        Seq::empty(),
    ) + seq![TxEvent::Dc(true)] + rows_events(buf, stride, x as int, y as int, w as int, h as nat)
}

/// The port actions that update every listed region, in order.
pub open spec fn regions_events(buf: Seq<u8>, stride: int, rs: Seq<Region>, dx: u16, dy: u16) -> Seq<
    TxEvent,
>
    decreases rs.len(),
{
    if rs.len() == 0 {
        Seq::empty()
    } else {
        regions_events(buf, stride, rs.drop_last(), dx, dy) + region_events(
            buf,
            stride,
            rs.last().x,
            rs.last().y,
            rs.last().width,
            rs.last().height,
            dx,
            dy,
        )
    }
}

/// The first `rows` rows of a rectangle, as one byte run in row-major
/// order.
pub open spec fn region_bytes(buf: Seq<u8>, stride: int, x: int, y: int, w: int, rows: nat) -> Seq<
    u8,
>
    decreases rows,
{
    if rows == 0 {
        Seq::empty()
    } else {
        region_bytes(buf, stride, x, y, w, (rows - 1) as nat) + region_row_bytes(
            buf,
            stride,
            x,
            y + rows - 1,
            w,
        )
    }
}

/// The payloads of the bus bursts among `events`, in order.
pub open spec fn spi_bursts(events: Seq<TxEvent>) -> Seq<Seq<u8>>
    decreases events.len(),
{
    if events.len() == 0 {
        Seq::empty()
    } else {
        spi_bursts(events.drop_last()) + match events.last() {
            TxEvent::Spi(d) => seq![d],
            TxEvent::Dc(_) => Seq::empty(),
            TxEvent::Cs(_) => Seq::empty(),
            TxEvent::Rst(_) => Seq::empty(),
        }
    }
}

/// Concatenation of bus bytes distributes over concatenation of histories.
pub proof fn lemma_spi_concat_add(a: Seq<TxEvent>, b: Seq<TxEvent>)
    ensures
        spi_concat(a + b) == spi_concat(a) + spi_concat(b),
    decreases b.len(),
{
    if b.len() == 0 {
        assert(a + b =~= a);
        assert(spi_concat(a) + spi_concat(b) =~= spi_concat(a));
    } else {
        lemma_spi_concat_add(a, b.drop_last());
        assert((a + b).drop_last() =~= a + b.drop_last());
        assert((a + b).last() == b.last());
        assert(spi_concat(a) + spi_concat(b.drop_last()) + match b.last() {
            TxEvent::Spi(d) => d,
            TxEvent::Dc(_) => Seq::<u8>::empty(),
            TxEvent::Cs(_) => Seq::<u8>::empty(),
            TxEvent::Rst(_) => Seq::<u8>::empty(),
        } =~= spi_concat(a) + spi_concat(b));
    }
}

/// The burst list distributes over concatenation of histories.
pub proof fn lemma_spi_bursts_add(a: Seq<TxEvent>, b: Seq<TxEvent>)
    ensures
        spi_bursts(a + b) == spi_bursts(a) + spi_bursts(b),
    decreases b.len(),
{
    if b.len() == 0 {
        assert(a + b =~= a);
        assert(spi_bursts(a) + spi_bursts(b) =~= spi_bursts(a));
    } else {
        lemma_spi_bursts_add(a, b.drop_last());
        assert((a + b).drop_last() =~= a + b.drop_last());
        assert((a + b).last() == b.last());
        assert(spi_bursts(a) + spi_bursts(b.drop_last()) + match b.last() {
            TxEvent::Spi(d) => seq![d],
            TxEvent::Dc(_) => Seq::<Seq<u8>>::empty(),
            TxEvent::Cs(_) => Seq::<Seq<u8>>::empty(),
            TxEvent::Rst(_) => Seq::<Seq<u8>>::empty(),
        } =~= spi_bursts(a) + spi_bursts(b));
    }
}

/// One data burst carries exactly its payload.
pub proof fn lemma_data_events_bytes(d: Seq<u8>)
    ensures
        spi_concat(data_events(d)) == d,
        spi_bursts(data_events(d)) == seq![d],
{
    let e = data_events(d);
    let e4 = seq![TxEvent::Cs(true), TxEvent::Dc(true), TxEvent::Cs(false), TxEvent::Spi(d)];
    let e3 = seq![TxEvent::Cs(true), TxEvent::Dc(true), TxEvent::Cs(false)];
    let e2 = seq![TxEvent::Cs(true), TxEvent::Dc(true)];
    let e1 = seq![TxEvent::Cs(true)];
    let e0 = Seq::<TxEvent>::empty();
    assert(e.drop_last() =~= e4);
    assert(e.last() == TxEvent::Cs(true));
    assert(e4.drop_last() =~= e3);
    assert(e4.last() == TxEvent::Spi(d));
    assert(e3.drop_last() =~= e2);
    assert(e3.last() == TxEvent::Cs(false));
    assert(e2.drop_last() =~= e1);
    assert(e2.last() == TxEvent::Dc(true));
    assert(e1.drop_last() =~= e0);
    assert(e1.last() == TxEvent::Cs(true));
    assert(spi_concat(e0) =~= Seq::<u8>::empty());
    assert(spi_concat(e1) =~= Seq::<u8>::empty());
    assert(spi_concat(e2) =~= Seq::<u8>::empty());
    assert(spi_concat(e3) =~= Seq::<u8>::empty());
    assert(spi_concat(e4) =~= d);
    assert(spi_concat(e) =~= d);
    assert(spi_bursts(e0) =~= Seq::<Seq<u8>>::empty());
    assert(spi_bursts(e1) =~= Seq::<Seq<u8>>::empty());
    assert(spi_bursts(e2) =~= Seq::<Seq<u8>>::empty());
    assert(spi_bursts(e3) =~= Seq::<Seq<u8>>::empty());
    assert(spi_bursts(e4) =~= seq![d]);
    assert(spi_bursts(e) =~= seq![d]);
}

/// Chunking completeness: a byte run streamed in bursts of at most `chunk`
/// bytes is sent in full and in order. The history consists of
/// `ceil(len / chunk)` bursts; every burst except the last carries exactly
/// `chunk` bytes, the last carries the remainder; and the concatenation of
/// all bursts is exactly the original run.
pub proof fn lemma_chunking_complete(bytes: Seq<u8>, chunk: nat)
    requires
        0 < chunk,
    ensures
        spi_concat(chunked_data_events(bytes, chunk)) == bytes,
        spi_bursts(chunked_data_events(bytes, chunk)).len() == (bytes.len() + chunk - 1) as int
            / chunk as int,
        forall|i: int|
            0 <= i < spi_bursts(chunked_data_events(bytes, chunk)).len() - 1 ==> #[trigger]
                spi_bursts(chunked_data_events(bytes, chunk))[i].len() == chunk,
        bytes.len() > 0 ==> spi_bursts(chunked_data_events(bytes, chunk)).last() == bytes.skip(
            ((bytes.len() - 1) as int / chunk as int) * chunk as int,
        ),
    decreases bytes.len(),
{
    let e = chunked_data_events(bytes, chunk);
    if bytes.len() == 0 {
        assert(spi_concat(e) =~= bytes);
        vstd::arithmetic::div_mod::lemma_basic_div(chunk as int - 1, chunk as int);
    } else if bytes.len() <= chunk {
        lemma_data_events_bytes(bytes);
        assert((bytes.len() + chunk - 1) as int / chunk as int == 1) by (nonlinear_arith)
            requires
                0 < bytes.len() <= chunk,
        ;
        assert(((bytes.len() - 1) as int / chunk as int) == 0) by (nonlinear_arith)
            requires
                0 < bytes.len() <= chunk,
        ;
        assert(bytes.skip(0) =~= bytes);
        assert(spi_bursts(e).last() == bytes);
        assert(spi_bursts(e).last() == bytes.skip(
            ((bytes.len() - 1) as int / chunk as int) * chunk as int,
        ));
    } else {
        let head = bytes.take(chunk as int);
        let tail = bytes.skip(chunk as int);
        lemma_chunking_complete(tail, chunk);
        lemma_data_events_bytes(head);
        lemma_spi_concat_add(data_events(head), chunked_data_events(tail, chunk));
        lemma_spi_bursts_add(data_events(head), chunked_data_events(tail, chunk));
        assert(head + tail =~= bytes);
        let n = bytes.len() as int;
        let c = chunk as int;
        vstd::arithmetic::div_mod::lemma_div_plus_one(n - 1, c);
        vstd::arithmetic::div_mod::lemma_div_plus_one(n - c - 1, c);
        vstd::arithmetic::div_mod::lemma_div_pos_is_pos(n - c - 1, c);
        vstd::arithmetic::mul::lemma_mul_is_distributive_add_other_way(c, (n - c - 1) / c, 1);
        assert((n - c + c - 1) / c + 1 == (n + c - 1) / c);
        assert(((n - c - 1) / c) * c + c == ((n - 1) / c) * c);
        assert((n - c + c - 1) / c >= 1);
        assert(tail.len() > 0);
        let bh = spi_bursts(data_events(head));
        let bt = spi_bursts(chunked_data_events(tail, chunk));
        assert(spi_bursts(e) == bh + bt);
        assert(bt.len() >= 1);
        assert((bh + bt).last() == bt.last());
        let q = (n - c - 1) / c;
        assert(((tail.len() - 1) as int / c) == q);
        vstd::arithmetic::div_mod::lemma_fundamental_div_mod(n - c - 1, c);
        vstd::arithmetic::div_mod::lemma_mod_bound(n - c - 1, c);
        vstd::arithmetic::mul::lemma_mul_is_commutative(c, q);
        vstd::arithmetic::mul::lemma_mul_nonnegative(q, c);
        assert(c * q == n - c - 1 - ((n - c - 1) % c));
        assert(0 <= q * c <= n - c - 1);
        assert(tail.skip(q * c) =~= bytes.skip(c + q * c));
        assert(c + q * c == ((n - 1) / c) * c);
        assert(bytes.skip(c + q * c) == bytes.skip(((n - 1) / c) * c));
        assert(tail.skip(((tail.len() - 1) as int / c) * c) == bytes.skip(
            ((bytes.len() - 1) as int / c) * c,
        ));
        assert(spi_bursts(e).last() == bytes.skip(
            ((bytes.len() - 1) as int / chunk as int) * chunk as int,
        ));
    }
}

/// Region-transfer completeness: streaming the rows of a rectangle sends
/// exactly the rectangle's bytes, row-major and in order — no byte of the
/// region is lost to chunking and none is sent twice.
pub proof fn lemma_rows_stream_all_bytes(
    buf: Seq<u8>,
    stride: int,
    x: int,
    y: int,
    w: int,
    rows: nat,
)
    ensures
        spi_concat(rows_events(buf, stride, x, y, w, rows)) == region_bytes(
            buf,
            stride,
            x,
            y,
            w,
            rows,
        ),
    decreases rows,
{
    if rows == 0 {
        assert(spi_concat(rows_events(buf, stride, x, y, w, rows))
            =~= region_bytes(buf, stride, x, y, w, rows));
    } else {
        lemma_rows_stream_all_bytes(buf, stride, x, y, w, (rows - 1) as nat);
        lemma_spi_concat_add(
            rows_events(buf, stride, x, y, w, (rows - 1) as nat),
            chunked_data_events(
                region_row_bytes(buf, stride, x, y + rows - 1, w),
                STREAM_CHUNK_SIZE as nat,
            ),
        );
        lemma_chunking_complete(
            region_row_bytes(buf, stride, x, y + rows - 1, w),
            STREAM_CHUNK_SIZE as nat,
        );
    }
}

} // verus!
