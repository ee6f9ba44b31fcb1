use gc9a01a::FrameBuffer;
use gc9a01a::Instruction;
use gc9a01a::GC9A01A;
use gc9a01a::Orientation;
use gc9a01a::Region;
use gc9a01a::transport::PortOp;
use gc9a01a::transport::RecordingTransport;

fn new_driver(rgb: bool, width: u32, height: u32) -> GC9A01A<RecordingTransport> {
    GC9A01A::new(RecordingTransport::new(), rgb, width, height)
}

fn bursts(driver: &GC9A01A<RecordingTransport>) -> Vec<Vec<u8>> {
    driver
        .transport()
        .ops()
        .iter()
        .filter_map(|op| match op {
            PortOp::Spi(d) => Some(d.clone()),
            _ => None,
        })
        .collect()
}

#[test]
fn hard_reset_toggles_the_reset_line() {
    let mut driver = new_driver(true, 240, 240);
    driver.hard_reset().unwrap();
    let ops = driver.transport().ops();
    assert_eq!(ops.len(), 3);
    assert!(matches!(ops[0], PortOp::Rst(true)));
    assert!(matches!(ops[1], PortOp::Rst(false)));
    assert!(matches!(ops[2], PortOp::Rst(true)));
}

#[test]
fn write_pixel_sets_window_then_writes_color() {
    let mut driver = new_driver(true, 240, 240);
    driver.write_pixel(5, 7, 0xABCD).unwrap();
    let b = bursts(&driver);
    let expected: Vec<Vec<u8>> = vec![
        vec![0x2A], // column address set
        vec![0x00, 0x05],
        vec![0x00, 0x05],
        vec![0x2B], // row address set
        vec![0x00, 0x07],
        vec![0x00, 0x07],
        vec![0x2C], // memory write
        vec![0xAB, 0xCD],
    ];
    assert_eq!(b, expected);
}

#[test]
fn address_window_applies_the_global_offset() {
    let mut driver = new_driver(true, 240, 240);
    driver.set_offset(10, 20);
    driver.write_pixel(5, 7, 0xABCD).unwrap();
    let b = bursts(&driver);
    assert_eq!(b[1], vec![0x00, 15]); // column start: 5 + 10
    assert_eq!(b[2], vec![0x00, 15]);
    assert_eq!(b[4], vec![0x00, 27]); // row start: 7 + 20
    assert_eq!(b[5], vec![0x00, 27]);
}

#[test]
fn set_address_window_sends_big_endian_words() {
    let mut driver = new_driver(true, 240, 240);
    driver.set_address_window(0x0102, 0x0304, 0x0506, 0x0708).unwrap();
    let b = bursts(&driver);
    let expected: Vec<Vec<u8>> = vec![
        vec![0x2A],
        vec![0x01, 0x02],
        vec![0x05, 0x06],
        vec![0x2B],
        vec![0x03, 0x04],
        vec![0x07, 0x08],
    ];
    assert_eq!(b, expected);
}

#[test]
fn orientation_byte_depends_on_color_order() {
    let mut rgb_driver = new_driver(true, 240, 240);
    rgb_driver.set_orientation(&Orientation::Landscape).unwrap();
    assert_eq!(bursts(&rgb_driver), vec![vec![0x36], vec![0x60]]);

    let mut bgr_driver = new_driver(false, 240, 240);
    bgr_driver.set_orientation(&Orientation::Landscape).unwrap();
    assert_eq!(bursts(&bgr_driver), vec![vec![0x36], vec![0x68]]);
}

#[test]
fn show_streams_the_whole_buffer_after_a_full_panel_window() {
    let mut driver = new_driver(true, 240, 240);
    let frame: Vec<u8> = (0u8..=255).collect();
    driver.show(&frame).unwrap();
    let b = bursts(&driver);
    let expected: Vec<Vec<u8>> = vec![
        vec![0x2A],
        vec![0x00, 0x00],
        vec![0x00, 0xEF], // 239: the panel's last column
        vec![0x2B],
        vec![0x00, 0x00],
        vec![0x00, 0xEF], // 239: the panel's last row
        vec![0x2C],
        frame,
    ];
    assert_eq!(b, expected);
}

#[test]
fn show_window_follows_panel_geometry_and_offset() {
    let mut driver = new_driver(true, 4, 8);
    driver.set_offset(2, 3);
    let frame: Vec<u8> = vec![0x55; 64];
    driver.show(&frame).unwrap();
    let b = bursts(&driver);
    assert_eq!(b[1], vec![0x00, 0x02]); // column start: 0 + 2
    assert_eq!(b[2], vec![0x00, 0x05]); // column end: 3 + 2
    assert_eq!(b[4], vec![0x00, 0x03]); // row start: 0 + 3
    assert_eq!(b[5], vec![0x00, 0x0A]); // row end: 7 + 3
    assert_eq!(b[6], vec![0x2C]);
    assert_eq!(b[7], frame);
}

#[test]
fn show_regions_with_empty_set_sends_nothing_and_succeeds() {
    let mut fb = FrameBuffer::new(vec![0u8; 32], 4, 4);
    fb.clear(0x0000);
    let mut driver = new_driver(true, 4, 4);
    assert!(driver.show_regions(fb.get_buffer()).is_ok());
    assert!(driver.transport().ops().is_empty());
    assert!(driver.show_regions_and_clear(fb.get_buffer()).is_ok());
    assert!(driver.transport().ops().is_empty());
}

#[test]
fn clear_screen_fills_a_small_panel_in_one_burst() {
    let mut driver = new_driver(true, 4, 4);
    driver.clear_screen(0xF800).unwrap();
    let b = bursts(&driver);
    // window over the full panel, memory write, then 16 pixels of color
    assert_eq!(b[0], vec![0x2A]);
    assert_eq!(b[1], vec![0x00, 0x00]);
    assert_eq!(b[2], vec![0x00, 0x03]);
    assert_eq!(b[3], vec![0x2B]);
    assert_eq!(b[4], vec![0x00, 0x00]);
    assert_eq!(b[5], vec![0x00, 0x03]);
    assert_eq!(b[6], vec![0x2C]);
    assert_eq!(b.len(), 8);
    let mut fill: Vec<u8> = Vec::new();
    for _ in 0..16 {
        fill.push(0xF8);
        fill.push(0x00);
    }
    assert_eq!(b[7], fill);
}

#[test]
fn draw_image_streams_the_image_in_chunks() {
    let mut driver = new_driver(true, 10, 4);
    let image: Vec<u8> = (0u8..160).collect();
    driver.draw_image(&image).unwrap();
    let b = bursts(&driver);
    // full-panel window and memory write, then five 32-byte chunks
    assert_eq!(b[2], vec![0x00, 0x09]);
    assert_eq!(b[5], vec![0x00, 0x03]);
    assert_eq!(b[6], vec![0x2C]);
    assert_eq!(b.len(), 12);
    let chunks = &b[7..];
    assert!(chunks.iter().all(|c| c.len() == 32));
    let concat: Vec<u8> = chunks.iter().flatten().copied().collect();
    assert_eq!(concat, image);
}

#[test]
fn hundred_byte_row_streams_as_four_chunks() {
    // a 50-pixel-wide panel: one row of a full-width region is 100 bytes
    let mut driver = new_driver(true, 50, 2);
    let buffer: Vec<u8> = (0u8..200).collect();
    driver.show_region(&buffer, 0, 0, 50, 1).unwrap();
    let b = bursts(&driver);
    // window and memory-write commands first, then the row chunks
    assert_eq!(b.len(), 7 + 4);
    let chunks = &b[7..];
    let lens: Vec<usize> = chunks.iter().map(|c| c.len()).collect();
    assert_eq!(lens, vec![32, 32, 32, 4]);
    let concat: Vec<u8> = chunks.iter().flatten().copied().collect();
    assert_eq!(concat, buffer[0..100].to_vec());
}

#[test]
fn show_region_streams_rows_separately() {
    // red 4x4 scene with one black pixel at (1, 1)
    let mut fb = FrameBuffer::new(vec![0u8; 32], 4, 4);
    fb.clear(0xF800);
    fb.write_pixel(1, 1, 0x0000);
    let mut driver = new_driver(true, 4, 4);
    driver.show_region(fb.get_buffer(), 0, 0, 2, 2).unwrap();
    let b = bursts(&driver);
    // window covers (0,0)..=(1,1)
    assert_eq!(b[2], vec![0x00, 0x01]);
    assert_eq!(b[5], vec![0x00, 0x01]);
    // two rows, row-major: three red pixels and one black at (1, 1)
    assert_eq!(b.len(), 9);
    assert_eq!(b[7], vec![0xF8, 0x00, 0xF8, 0x00]);
    assert_eq!(b[8], vec![0xF8, 0x00, 0x00, 0x00]);
}

#[test]
fn show_regions_transfers_in_insertion_order() {
    let mut fb = FrameBuffer::new(vec![0u8; 32], 4, 4);
    fb.clear(0x1234);
    let mut driver = new_driver(true, 4, 4);
    driver.store_region(Region { x: 0, y: 0, width: 1, height: 1 }).unwrap();
    driver.store_region_from_params(3, 3, 1, 1).unwrap();
    driver.show_regions(fb.get_buffer()).unwrap();
    let b = bursts(&driver);
    // two region transfers of 7 command bursts + 1 row burst each
    assert_eq!(b.len(), 16);
    // first region windows column 0..=0
    assert_eq!(b[1], vec![0x00, 0x00]);
    assert_eq!(b[2], vec![0x00, 0x00]);
    assert_eq!(b[7], vec![0x12, 0x34]);
    // second region windows column 3..=3
    assert_eq!(b[9], vec![0x00, 0x03]);
    assert_eq!(b[10], vec![0x00, 0x03]);
    assert_eq!(b[15], vec![0x12, 0x34]);
}

#[test]
fn show_regions_and_clear_empties_the_set() {
    let mut fb = FrameBuffer::new(vec![0u8; 32], 4, 4);
    fb.clear(0x0000);
    let mut driver = new_driver(true, 4, 4);
    driver.store_region(Region { x: 1, y: 1, width: 2, height: 2 }).unwrap();
    driver.show_regions_and_clear(fb.get_buffer()).unwrap();
    for slot in driver.get_regions() {
        assert!(slot.is_none());
    }
    // the transfer itself still happened
    assert!(!bursts(&driver).is_empty());
}

#[test]
fn driver_reports_capacity_exhaustion() {
    let mut driver = new_driver(true, 240, 240);
    for i in 0..10u16 {
        assert!(driver.store_region(Region { x: i, y: i, width: 1, height: 1 }).is_ok());
    }
    assert!(driver.store_region(Region { x: 99, y: 99, width: 1, height: 1 }).is_err());
    let slots = driver.get_regions();
    assert_eq!(slots.len(), 10);
    for i in 0..10usize {
        assert_eq!(slots[i].unwrap().x, i as u16);
    }
}

#[test]
fn clear_regions_frees_all_slots() {
    let mut driver = new_driver(true, 240, 240);
    driver.store_region(Region { x: 1, y: 2, width: 3, height: 4 }).unwrap();
    driver.clear_regions();
    for slot in driver.get_regions() {
        assert!(slot.is_none());
    }
}

#[test]
fn init_runs_the_power_on_script() {
    let mut driver = new_driver(true, 240, 240);
    driver.init().unwrap();
    let ops = driver.transport().ops();
    // the script opens with a hard reset
    assert!(matches!(ops[0], PortOp::Rst(true)));
    assert!(matches!(ops[1], PortOp::Rst(false)));
    assert!(matches!(ops[2], PortOp::Rst(true)));
    let b = bursts(&driver);
    // 50 commands: 7 without parameters, 43 with one parameter burst each
    assert_eq!(b.len(), 93);
    assert_eq!(b[0], vec![0xEF]);
    assert_eq!(b[1], vec![0xEB]);
    assert_eq!(b[2], vec![0x14]);
    // the script ends with sleep-out and display-on
    assert_eq!(b[91], vec![0x11]);
    assert_eq!(b[92], vec![0x29]);
}

#[test]
fn instruction_codes_match_the_command_set() {
    assert_eq!(Instruction::CaSet.code(), 0x2A);
    assert_eq!(Instruction::RaSet.code(), 0x2B);
    assert_eq!(Instruction::RamWr.code(), 0x2C);
    assert_eq!(Instruction::MadCtl.code(), 0x36);
    assert_eq!(Instruction::SlpOut.code(), 0x11);
    assert_eq!(Instruction::DispOn.code(), 0x29);
}
