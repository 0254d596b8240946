use sharp_memory_display::bitmap::PixelBuffer;
use sharp_memory_display::protocol::{encode_clear, encode_frame, Command, Controller, Framing};

#[test]
fn sharp_command_set() {
    let controller = Controller::sharp_memory_lcd();
    assert_eq!(controller.write_opcode, 0x01);
    assert_eq!(controller.clear_opcode, 0x04);
    assert_eq!(controller.vcom_mask, 0x02);
    assert_eq!(controller.framing, Framing::AddressedLine);
}

#[test]
fn command_bytes_carry_the_polarity() {
    let controller = Controller::sharp_memory_lcd();
    assert_eq!(controller.command_byte(Command::Write, true), 0x03);
    assert_eq!(controller.command_byte(Command::Write, false), 0x01);
    assert_eq!(controller.command_byte(Command::Clear, true), 0x06);
    assert_eq!(controller.command_byte(Command::Clear, false), 0x04);
}

#[test]
fn command_bytes_of_another_controller() {
    let controller = Controller::new(0x80, 0x20, 0x40, Framing::Sequential).unwrap();
    assert_eq!(controller.command_byte(Command::Write, true), 0xc0);
    assert_eq!(controller.command_byte(Command::Write, false), 0x80);
    assert_eq!(controller.command_byte(Command::Clear, true), 0x60);
    assert_eq!(controller.command_byte(Command::Clear, false), 0x20);
}

#[test]
fn controller_new_accepts_a_sound_description() {
    let controller = Controller::new(0x01, 0x04, 0x02, Framing::AddressedLine);
    assert_eq!(controller, Some(Controller::sharp_memory_lcd()));
}

#[test]
fn controller_new_rejects_an_unsound_description() {
    // No polarity bit.
    assert_eq!(Controller::new(0x01, 0x04, 0x00, Framing::AddressedLine), None);
    // The same opcode twice.
    assert_eq!(Controller::new(0x01, 0x01, 0x02, Framing::AddressedLine), None);
    // An opcode that uses the polarity bit.
    assert_eq!(Controller::new(0x03, 0x04, 0x02, Framing::AddressedLine), None);
    assert_eq!(Controller::new(0x01, 0x06, 0x02, Framing::Sequential), None);
}

#[test]
fn clear_transfer_is_command_and_zero() {
    assert_eq!(encode_clear(0x06), vec![0x06, 0x00]);
    assert_eq!(encode_clear(0x04), vec![0x04, 0x00]);
}

#[test]
fn addressed_line_frame() {
    let mut pixels = PixelBuffer::new(8, 2);
    pixels.set_pixel(0, 0, true);
    pixels.set_pixel(7, 1, true);
    let frame = encode_frame(Framing::AddressedLine, 0x03, &pixels);
    assert_eq!(frame, vec![0x03, 1, 0x01, 0, 2, 0x80, 0, 0]);
}

#[test]
fn sequential_frame() {
    let mut pixels = PixelBuffer::new(8, 2);
    pixels.set_pixel(0, 0, true);
    pixels.set_pixel(7, 1, true);
    let frame = encode_frame(Framing::Sequential, 0x03, &pixels);
    assert_eq!(frame, vec![0x03, 0x01, 0, 0x80, 0, 0]);
}

#[test]
fn frame_of_a_narrow_panel_pads_each_row() {
    let mut pixels = PixelBuffer::new(4, 2);
    pixels.set_pixel(1, 0, true);
    pixels.set_pixel(3, 1, true);
    let frame = encode_frame(Framing::AddressedLine, 0x01, &pixels);
    assert_eq!(frame, vec![0x01, 1, 0x02, 0, 2, 0x08, 0, 0]);
    let frame = encode_frame(Framing::Sequential, 0x01, &pixels);
    assert_eq!(frame, vec![0x01, 0x02, 0, 0x08, 0, 0]);
}

#[test]
fn frame_without_rows() {
    let pixels = PixelBuffer::new(8, 0);
    assert_eq!(encode_frame(Framing::AddressedLine, 0x01, &pixels), vec![0x01, 0]);
    let pixels = PixelBuffer::new(0, 2);
    assert_eq!(encode_frame(Framing::AddressedLine, 0x01, &pixels), vec![0x01, 1, 0, 2, 0, 0]);
    assert_eq!(encode_frame(Framing::Sequential, 0x01, &pixels), vec![0x01, 0, 0, 0]);
}

#[test]
fn addressed_line_frame_decomposes_into_rows() {
    let (width, height) = (144u8, 168u8);
    let row_bytes = 18usize;
    let mut pixels = PixelBuffer::new(width, height);
    for y in 0..height {
        for x in 0..width {
            pixels.set_pixel(x, y, (x as u32 * 7 + y as u32 * 13) % 5 < 2);
        }
    }
    let frame = encode_frame(Framing::AddressedLine, 0x03, &pixels);
    assert_eq!(frame.len(), 1 + 168 * (18 + 2) + 1);
    assert_eq!(frame[0], 0x03);
    let packed = pixels.as_bytes();
    for y in 0..height as usize {
        let block = &frame[1 + y * (row_bytes + 2)..1 + (y + 1) * (row_bytes + 2)];
        assert_eq!(block[0] as usize, y + 1);
        assert_eq!(&block[1..1 + row_bytes], &packed[y * row_bytes..(y + 1) * row_bytes]);
        assert_eq!(block[row_bytes + 1], 0x00);
    }
    assert_eq!(frame[frame.len() - 1], 0x00);
}

#[test]
fn sequential_frame_decomposes_into_rows() {
    let (width, height) = (16u8, 5u8);
    let mut pixels = PixelBuffer::new(width, height);
    for y in 0..height {
        for x in 0..width {
            pixels.set_pixel(x, y, (x + 2 * y) % 3 == 1);
        }
    }
    let frame = encode_frame(Framing::Sequential, 0x81, &pixels);
    assert_eq!(frame.len(), 1 + 5 * 3 + 1);
    assert_eq!(frame[0], 0x81);
    let packed = pixels.as_bytes();
    for y in 0..height as usize {
        let block = &frame[1 + y * 3..1 + (y + 1) * 3];
        assert_eq!(&block[..2], &packed[y * 2..(y + 1) * 2]);
        assert_eq!(block[2], 0x00);
    }
    assert_eq!(frame[frame.len() - 1], 0x00);
}

#[test]
fn pixels_read_back_from_a_frame() {
    let (width, height) = (12u8, 3u8);
    let mut pixels = PixelBuffer::new(width, height);
    for y in 0..height {
        for x in 0..width {
            pixels.set_pixel(x, y, (x * y) % 2 == 1 || x == 11);
        }
    }
    let frame = encode_frame(Framing::AddressedLine, 0x01, &pixels);
    // Two bytes to a row, between the row number and the closing zero.
    for y in 0..height {
        for x in 0..width {
            let place = 1 + y as usize * 4 + 1 + x as usize / 8;
            let dark = frame[place] & (1 << (x % 8)) != 0;
            assert_eq!(Some(dark), pixels.get_pixel(x, y));
        }
    }
}
