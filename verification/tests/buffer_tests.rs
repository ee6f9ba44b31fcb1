use gc9a01a::FrameBuffer;
use gc9a01a::Region;

fn red_buffer_4x4() -> FrameBuffer {
    let mut fb = FrameBuffer::new(vec![0u8; 32], 4, 4);
    fb.clear(0xF800);
    fb
}

#[test]
fn clear_fills_every_pixel_big_endian() {
    let fb = red_buffer_4x4();
    let bytes = fb.get_buffer();
    assert_eq!(bytes.len(), 32);
    for i in 0..16 {
        assert_eq!(bytes[2 * i], 0xF8);
        assert_eq!(bytes[2 * i + 1], 0x00);
    }
}

#[test]
fn write_pixel_sets_two_bytes_row_major() {
    let mut fb = red_buffer_4x4();
    fb.write_pixel(1, 1, 0x0000);
    let bytes = fb.get_buffer();
    // pixel (1, 1) starts at byte (1 * 4 + 1) * 2 = 10
    assert_eq!(bytes[10], 0x00);
    assert_eq!(bytes[11], 0x00);
    // neighbours untouched
    assert_eq!(bytes[8], 0xF8);
    assert_eq!(bytes[9], 0x00);
    assert_eq!(bytes[12], 0xF8);
    assert_eq!(bytes[13], 0x00);
}

#[test]
fn write_pixel_out_of_bounds_is_clipped() {
    let mut fb = red_buffer_4x4();
    let before = fb.get_buffer().to_vec();
    fb.write_pixel(-1, 0, 0x1234);
    fb.write_pixel(0, -1, 0x1234);
    fb.write_pixel(4, 0, 0x1234);
    fb.write_pixel(0, 4, 0x1234);
    fb.write_pixel(1000, 1000, 0x1234);
    fb.write_pixel(i32::MIN, i32::MAX, 0x1234);
    assert_eq!(fb.get_buffer(), before.as_slice());
}

#[test]
fn copy_region_copies_rows_byte_for_byte() {
    // source: a 4x4 buffer whose bytes count upward
    let src: Vec<u8> = (0u8..32).collect();
    let mut fb = FrameBuffer::new(vec![0xAAu8; 32], 4, 4);
    // copy the 2x2 block at (1, 1) onto the same place
    fb.copy_region(&src, 1, 1, 2, 2, 1, 1);
    let bytes = fb.get_buffer();
    // row 1, pixels 1..3: bytes 10..14; row 2: bytes 18..22
    for k in 10..14 {
        assert_eq!(bytes[k], src[k]);
    }
    for k in 18..22 {
        assert_eq!(bytes[k], src[k]);
    }
    // everything else untouched
    for k in (0..10).chain(14..18).chain(22..32) {
        assert_eq!(bytes[k], 0xAA);
    }
}

#[test]
fn copy_region_moves_block_to_other_origin() {
    let src: Vec<u8> = (0u8..32).collect();
    let mut fb = FrameBuffer::new(vec![0u8; 32], 4, 4);
    // copy the 1x1 block at (0, 0) to (3, 3)
    fb.copy_region(&src, 0, 0, 1, 1, 3, 3);
    let bytes = fb.get_buffer();
    assert_eq!(bytes[30], src[0]);
    assert_eq!(bytes[31], src[1]);
    for k in 0..30 {
        assert_eq!(bytes[k], 0);
    }
}

#[test]
fn round_trip_restore_inside_region() {
    // background holds the clean scene
    let background: Vec<u8> = (0u8..32).collect();
    let mut fb = FrameBuffer::new(vec![0u8; 32], 4, 4);
    let r = Region { x: 1, y: 1, width: 2, height: 2 };
    // first restore: seed the draw buffer inside R
    fb.copy_region(&background, r.x, r.y, r.width, r.height, r.x, r.y);
    let after_first = fb.get_buffer().to_vec();
    // draw arbitrary pixels strictly inside R
    fb.write_pixel(1, 1, 0xDEAD);
    fb.write_pixel(2, 1, 0xBEEF);
    fb.write_pixel(2, 2, 0x0102);
    // second restore
    fb.copy_region(&background, r.x, r.y, r.width, r.height, r.x, r.y);
    // inside R the bytes equal the background's, outside R nothing was touched
    assert_eq!(fb.get_buffer(), after_first.as_slice());
}

#[test]
fn copy_regions_restores_each_occupied_slot() {
    let background: Vec<u8> = (0u8..32).collect();
    let mut fb = FrameBuffer::new(vec![0xFFu8; 32], 4, 4);
    let regions: Vec<Option<Region>> = vec![
        Some(Region { x: 0, y: 0, width: 1, height: 1 }),
        None,
        Some(Region { x: 2, y: 3, width: 2, height: 1 }),
        None,
    ];
    fb.copy_regions(&background, &regions);
    let bytes = fb.get_buffer();
    // region one: pixel (0, 0) -> bytes 0..2
    assert_eq!(&bytes[0..2], &background[0..2]);
    // region two: pixels (2, 3) and (3, 3) -> bytes 28..32
    assert_eq!(&bytes[28..32], &background[28..32]);
    // everything else untouched
    for k in 2..28 {
        assert_eq!(bytes[k], 0xFF);
    }
}

#[test]
fn buffer_reports_its_geometry() {
    let fb = FrameBuffer::new(vec![0u8; 240 * 240 * 2], 240, 240);
    assert_eq!(fb.width(), 240);
    assert_eq!(fb.height(), 240);
    assert_eq!(fb.get_buffer().len(), 240 * 240 * 2);
}
