use sharp_memory_display::bitmap::{get_index, PixelBuffer};

#[test]
fn get_index_counts_row_by_row() {
    assert_eq!(get_index(144, 0, 0), (0, 0));
    assert_eq!(get_index(144, 7, 0), (0, 7));
    assert_eq!(get_index(144, 8, 0), (1, 0));
    assert_eq!(get_index(144, 9, 1), (19, 1));
    assert_eq!(get_index(144, 143, 167), (3023, 7));
    assert_eq!(get_index(4, 3, 7), (3, 7));
}

#[test]
fn get_index_of_the_largest_coordinates() {
    assert_eq!(get_index(255, 255, 255), (8160, 0));
    assert_eq!(get_index(0, 5, 200), (0, 5));
}

#[test]
fn new_buffer_is_light_and_packed() {
    let buffer = PixelBuffer::new(144, 168);
    assert_eq!(buffer.width(), 144);
    assert_eq!(buffer.height(), 168);
    assert_eq!(buffer.as_bytes().len(), 3024);
    assert!(buffer.as_bytes().iter().all(|&byte| byte == 0));
    assert_eq!(buffer.get_pixel(0, 0), Some(false));
    assert_eq!(buffer.get_pixel(143, 167), Some(false));
}

#[test]
fn buffer_length_rounds_up() {
    assert_eq!(PixelBuffer::new(3, 3).as_bytes().len(), 2);
    assert_eq!(PixelBuffer::new(4, 8).as_bytes().len(), 4);
    assert_eq!(PixelBuffer::new(0, 9).as_bytes().len(), 0);
    assert_eq!(PixelBuffer::new(255, 255).as_bytes().len(), 8129);
}

#[test]
fn set_pixel_reads_back() {
    let mut buffer = PixelBuffer::new(16, 4);
    buffer.set_pixel(9, 2, true);
    assert_eq!(buffer.get_pixel(9, 2), Some(true));
    assert_eq!(buffer.as_bytes().as_slice(), &[0, 0, 0, 0, 0, 0x02, 0, 0]);
    buffer.set_pixel(9, 2, false);
    assert_eq!(buffer.get_pixel(9, 2), Some(false));
    assert!(buffer.as_bytes().iter().all(|&byte| byte == 0));
}

#[test]
fn set_pixel_touches_no_other_pixel() {
    for v in [true, false] {
        for tx in 0..5u8 {
            for ty in 0..3u8 {
                let mut buffer = PixelBuffer::new(5, 3);
                // Start from the opposite colour everywhere.
                for y in 0..3u8 {
                    for x in 0..5u8 {
                        buffer.set_pixel(x, y, !v);
                    }
                }
                buffer.set_pixel(tx, ty, v);
                for y in 0..3u8 {
                    for x in 0..5u8 {
                        let expected = if (x, y) == (tx, ty) { v } else { !v };
                        assert_eq!(buffer.get_pixel(x, y), Some(expected));
                    }
                }
            }
        }
    }
}

#[test]
fn clear_makes_every_pixel_light() {
    let mut buffer = PixelBuffer::new(24, 5);
    for y in 0..5u8 {
        for x in 0..24u8 {
            buffer.set_pixel(x, y, (x + y) % 3 == 0);
        }
    }
    buffer.clear();
    for y in 0..5u8 {
        for x in 0..24u8 {
            assert_eq!(buffer.get_pixel(x, y), Some(false));
        }
    }
    assert_eq!(buffer.as_bytes().len(), 15);
    buffer.clear();
    assert!(buffer.as_bytes().iter().all(|&byte| byte == 0));
}

#[test]
fn out_of_range_is_tolerated() {
    let mut buffer = PixelBuffer::new(144, 168);
    buffer.set_pixel(10, 10, true);
    let before = buffer.as_bytes().clone();
    buffer.set_pixel(144, 0, true);
    buffer.set_pixel(0, 168, true);
    buffer.set_pixel(255, 255, true);
    assert_eq!(buffer.as_bytes(), &before);
    assert_eq!(buffer.get_pixel(144, 0), None);
    assert_eq!(buffer.get_pixel(0, 168), None);
    assert_eq!(buffer.get_pixel(255, 255), None);
    assert_eq!(buffer.get_pixel(143, 167), Some(false));
}

#[test]
fn four_by_eight_all_dark_then_cleared() {
    let mut buffer = PixelBuffer::new(4, 8);
    assert_eq!(buffer.as_bytes().len(), 4);
    for y in 0..8u8 {
        for x in 0..4u8 {
            buffer.set_pixel(x, y, true);
        }
    }
    for y in 0..8u8 {
        for x in 0..4u8 {
            assert_eq!(buffer.get_pixel(x, y), Some(true));
        }
    }
    assert_eq!(buffer.as_bytes().as_slice(), &[0xff, 0xff, 0xff, 0xff]);
    buffer.clear();
    for y in 0..8u8 {
        for x in 0..4u8 {
            assert_eq!(buffer.get_pixel(x, y), Some(false));
        }
    }
    assert_eq!(buffer.as_bytes().as_slice(), &[0, 0, 0, 0]);
}

#[test]
fn row_bytes_of_an_aligned_width_are_the_buffer_bytes() {
    let mut buffer = PixelBuffer::new(16, 3);
    buffer.set_pixel(0, 0, true);
    buffer.set_pixel(15, 0, true);
    buffer.set_pixel(3, 1, true);
    buffer.set_pixel(8, 2, true);
    let bytes = buffer.as_bytes().clone();
    assert_eq!(bytes, vec![0x01, 0x80, 0x08, 0x00, 0x00, 0x01]);
    for y in 0..3u8 {
        for j in 0..2u8 {
            assert_eq!(buffer.row_byte(y, j), bytes[y as usize * 2 + j as usize]);
        }
    }
}

#[test]
fn row_bytes_of_a_narrow_width_are_padded() {
    let mut buffer = PixelBuffer::new(4, 2);
    buffer.set_pixel(1, 0, true);
    buffer.set_pixel(3, 1, true);
    assert_eq!(buffer.as_bytes().as_slice(), &[0x82]);
    assert_eq!(buffer.row_byte(0, 0), 0x02);
    assert_eq!(buffer.row_byte(1, 0), 0x08);
    // Past the end of the row, and past the last row, all is light.
    assert_eq!(buffer.row_byte(0, 1), 0x00);
    assert_eq!(buffer.row_byte(2, 0), 0x00);
    assert_eq!(buffer.row_byte(255, 255), 0x00);
}

#[test]
fn row_bytes_of_a_ragged_width() {
    let mut buffer = PixelBuffer::new(10, 2);
    for x in 0..10u8 {
        buffer.set_pixel(x, 1, true);
    }
    assert_eq!(buffer.row_byte(0, 0), 0x00);
    assert_eq!(buffer.row_byte(0, 1), 0x00);
    assert_eq!(buffer.row_byte(1, 0), 0xff);
    assert_eq!(buffer.row_byte(1, 1), 0x03);
}
