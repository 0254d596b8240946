//! The controller's wire protocol: command bytes and the layout of a frame.

use crate::bitmap::{row_len, Bitmap, PixelBuffer};
use crate::bits::bit_is_set;
use vstd::prelude::*;

verus! {

/// How the rows of a frame follow the command byte on the wire.
#[derive(Clone, Copy, Debug, PartialEq, Eq)]
pub enum Framing {
    /// Every row is sent as its number (counted from one), its packed
    /// pixels and a zero byte.
    AddressedLine,
    /// Every row is sent as its packed pixels and a zero byte, the rows in
    /// order from the top.
    Sequential,
}

/// The two commands of the protocol.
#[derive(Clone, Copy, Debug, PartialEq, Eq)]
pub enum Command {
    /// Rows of pixels follow.
    Write,
    /// The panel is to blank itself.
    Clear,
}

/// What tells one generation of controllers from another: the opcodes, the
/// place of the polarity bit in the command byte, and the framing of rows.
#[derive(Clone, Copy, Debug, PartialEq, Eq)]
pub struct Controller {
    pub write_opcode: u8,
    pub clear_opcode: u8,
    pub vcom_mask: u8,
    pub framing: Framing,
}

impl Controller {
    /// The two opcodes differ, and the polarity bit is a bit of its own that
    /// neither opcode uses.
    pub open spec fn wf(self) -> bool {
        &&& self.vcom_mask != 0
        &&& self.write_opcode != self.clear_opcode
        &&& self.write_opcode & self.vcom_mask == 0
        &&& self.clear_opcode & self.vcom_mask == 0
    }

    /// The opcode that stands for `command`.
    pub open spec fn opcode_of(self, command: Command) -> u8 {
        match command {
            Command::Write => self.write_opcode,
            Command::Clear => self.clear_opcode,
        }
    }

    /// The command byte for `command` at the given polarity: the opcode,
    /// with the polarity bit set when the polarity is high.
    pub open spec fn command_byte_of(self, command: Command, polarity: bool) -> u8 {
        self.opcode_of(command) | (if polarity {
            self.vcom_mask
        } else {
            0u8
        })
    }

    /// The polarity that a command byte carries.
    pub open spec fn polarity_of(self, byte: u8) -> bool {
        byte & self.vcom_mask != 0
    }

    /// A command byte carries the polarity it was built with, and still
    /// shows which command it is.
    pub proof fn lemma_command_byte(self, command: Command, polarity: bool)
        requires
            self.wf(),
        ensures
            self.polarity_of(self.command_byte_of(command, polarity)) == polarity,
            self.command_byte_of(command, polarity) & !self.vcom_mask == self.opcode_of(command),
    {
        let op = self.opcode_of(command);
        let mask = self.vcom_mask;
        assert((op | mask) & mask != 0 && (op | mask) & !mask == op) by (bit_vector)
            requires
                mask != 0,
                op & mask == 0,
        ;
        assert((op | 0u8) & mask == 0 && (op | 0u8) & !mask == op) by (bit_vector)
            requires
                op & mask == 0,
        ;
    }

    /// A controller with the given opcodes, polarity bit and framing, or
    /// `None` where the opcodes coincide, the polarity mask is empty or an
    /// opcode uses the polarity bit.
    pub fn new(write_opcode: u8, clear_opcode: u8, vcom_mask: u8, framing: Framing) -> (controller:
        Option<Controller>)
        ensures
            controller == (if (Controller { write_opcode, clear_opcode, vcom_mask, framing }).wf() {
                Some(Controller { write_opcode, clear_opcode, vcom_mask, framing })
            } else {
                None
            }),
    {
        if vcom_mask != 0 && write_opcode != clear_opcode && write_opcode & vcom_mask == 0
            && clear_opcode & vcom_mask == 0 {
            Some(Controller { write_opcode, clear_opcode, vcom_mask, framing })
        } else {
            None
        }
    }

    /// The Sharp memory LCD command set: write is `0x01`, clear is `0x04`,
    /// the polarity bit is `0x02`, and rows are sent with their numbers.
    pub fn sharp_memory_lcd() -> (controller: Controller)
        ensures
            controller.wf(),
            controller == (Controller {
                write_opcode: 0x01,
                clear_opcode: 0x04,
                vcom_mask: 0x02,
                framing: Framing::AddressedLine,
            }),
    {
        assert(0x01u8 & 0x02u8 == 0 && 0x04u8 & 0x02u8 == 0) by (bit_vector);
        Controller {
            write_opcode: 0x01,
            clear_opcode: 0x04,
            vcom_mask: 0x02,
            framing: Framing::AddressedLine,
        }
    }

    /// The command byte for `command` at the given polarity.
    pub fn command_byte(&self, command: Command, polarity: bool) -> (byte: u8)
        ensures
            byte == self.command_byte_of(command, polarity),
    {
        let opcode = match command {
            Command::Write => self.write_opcode,
            Command::Clear => self.clear_opcode,
        };
        if polarity {
            opcode | self.vcom_mask
        } else {
            proof {
                assert((opcode | 0u8) == opcode) by (bit_vector);
            }
            opcode
        }
    }
}

/// Bytes that one row takes on the wire.
pub open spec fn line_len(framing: Framing, width: nat) -> nat {
    match framing {
        Framing::AddressedLine => row_len(width) + 2,
        Framing::Sequential => row_len(width) + 1,
    }
}

/// Row `y` as it goes over the wire.
pub open spec fn line(framing: Framing, bitmap: Bitmap, y: int) -> Seq<u8> {
    match framing {
        Framing::AddressedLine => seq![(y + 1) as u8] + bitmap.row(y) + seq![0u8],
        Framing::Sequential => bitmap.row(y) + seq![0u8],
    }
}

/// The first `n` rows as they go over the wire, one after the other.
pub open spec fn lines(framing: Framing, bitmap: Bitmap, n: nat) -> Seq<u8>
    decreases n,
{
    if n == 0 {
        Seq::empty()
    } else {
        lines(framing, bitmap, (n - 1) as nat) + line(framing, bitmap, n - 1)
    }
}

/// The whole of a write transfer: the command byte, every row from the top,
/// and a closing zero byte.
pub open spec fn frame(framing: Framing, command: u8, bitmap: Bitmap) -> Seq<u8> {
    seq![command] + lines(framing, bitmap, bitmap.height) + seq![0u8]
}

/// The whole of a clear transfer: the command byte and one zero byte.
pub open spec fn clear_frame(command: u8) -> Seq<u8> {
    seq![command, 0u8]
}

/// Every row takes the same number of bytes.
pub proof fn lemma_line_len(framing: Framing, bitmap: Bitmap, y: int)
    ensures
        line(framing, bitmap, y).len() == line_len(framing, bitmap.width),
{
}

/// The first `n` rows take `n` times the bytes of one.
pub proof fn lemma_lines_len(framing: Framing, bitmap: Bitmap, n: nat)
    ensures
        lines(framing, bitmap, n).len() == n * line_len(framing, bitmap.width),
    decreases n,
{
    let l = line_len(framing, bitmap.width) as int;
    if n > 0 {
        lemma_lines_len(framing, bitmap, (n - 1) as nat);
        lemma_line_len(framing, bitmap, n - 1);
        assert((n - 1) * l + l == n * l) by (nonlinear_arith);
    } else {
        assert(0 * l == 0);
    }
}

/// The first `n` rows take `n` times the bytes of one, and each row stands
/// at its place among them.
pub proof fn lemma_lines(framing: Framing, bitmap: Bitmap, n: nat, y: int)
    requires
        0 <= y < n,
    ensures
        lines(framing, bitmap, n).len() == n * line_len(framing, bitmap.width),
        0 <= y * line_len(framing, bitmap.width) <= (y + 1) * line_len(framing, bitmap.width)
            <= n * line_len(framing, bitmap.width),
        lines(framing, bitmap, n).subrange(
            y * line_len(framing, bitmap.width),
            (y + 1) * line_len(framing, bitmap.width),
        ) == line(framing, bitmap, y),
    decreases n,
{
    let l = line_len(framing, bitmap.width) as int;
    lemma_lines_len(framing, bitmap, n);
    lemma_lines_len(framing, bitmap, (n - 1) as nat);
    let before = lines(framing, bitmap, (n - 1) as nat);
    let last = line(framing, bitmap, n - 1);
    assert(0 <= y * l && (y + 1) * l == y * l + l && (y + 1) * l <= n * l && (n - 1) * l == n * l
        - l) by (nonlinear_arith)
        requires
            0 <= y < n,
            0 <= l,
    ;
    if y == n - 1 {
        assert((before + last).subrange(y * l, (y + 1) * l) =~= last);
    } else {
        lemma_lines(framing, bitmap, (n - 1) as nat, y);
        assert((before + last).subrange(y * l, (y + 1) * l) =~= before.subrange(
            y * l,
            (y + 1) * l,
        ));
    }
}

/// Every frame, even one without rows, has the command byte first and a
/// zero byte last.
pub proof fn lemma_frame_len(framing: Framing, command: u8, bitmap: Bitmap)
    ensures
        frame(framing, command, bitmap).len() == 2 + bitmap.height * line_len(
            framing,
            bitmap.width,
        ),
        frame(framing, command, bitmap)[0] == command,
        frame(framing, command, bitmap).last() == 0u8,
{
    lemma_lines_len(framing, bitmap, bitmap.height);
}

/// A frame is the command byte, then one block for each row in order from
/// the top, then a single zero byte. With addressed lines, the block of row
/// `y` is the row number `y + 1`, the packed pixels of the row, and a zero
/// byte; with sequential framing the row number is left out.
pub proof fn lemma_frame_layout(framing: Framing, command: u8, bitmap: Bitmap, y: int)
    requires
        0 <= y < bitmap.height,
    ensures
        frame(framing, command, bitmap).len() == 2 + bitmap.height * line_len(
            framing,
            bitmap.width,
        ),
        frame(framing, command, bitmap)[0] == command,
        frame(framing, command, bitmap).last() == 0u8,
        1 <= 1 + y * line_len(framing, bitmap.width) <= 1 + (y + 1) * line_len(
            framing,
            bitmap.width,
        ) < frame(framing, command, bitmap).len(),
        frame(framing, command, bitmap).subrange(
            1 + y * line_len(framing, bitmap.width),
            1 + (y + 1) * line_len(framing, bitmap.width),
        ) == line(framing, bitmap, y),
        line(framing, bitmap, y) == (match framing {
            Framing::AddressedLine => seq![(y + 1) as u8] + bitmap.row(y) + seq![0u8],
            Framing::Sequential => bitmap.row(y) + seq![0u8],
        }),
{
    let l = line_len(framing, bitmap.width) as int;
    let body = lines(framing, bitmap, bitmap.height);
    let whole = frame(framing, command, bitmap);
    lemma_lines(framing, bitmap, bitmap.height, y);
    assert(whole.subrange(1 + y * l, 1 + (y + 1) * l) =~= body.subrange(y * l, (y + 1) * l));
}

/// Where in a frame the byte with pixel `(x, y)` stands.
pub open spec fn pixel_place(framing: Framing, width: nat, x: int, y: int) -> int {
    1 + y * line_len(framing, width) + x / 8 + (match framing {
        Framing::AddressedLine => 1int,
        Framing::Sequential => 0int,
    })
}

/// The pixels can be read back from a frame: pixel `(x, y)` is bit `x % 8`
/// of the byte `x / 8` of the packed pixels in the block of row `y`.
pub proof fn lemma_frame_pixel(framing: Framing, command: u8, bitmap: Bitmap, x: int, y: int)
    requires
        bitmap.in_range(x, y),
    ensures
        0 <= pixel_place(framing, bitmap.width, x, y) < frame(framing, command, bitmap).len(),
        bit_is_set(
            frame(framing, command, bitmap)[pixel_place(framing, bitmap.width, x, y)],
            (x % 8) as u8,
        ) == bitmap.pixel(x, y),
{
    let l = line_len(framing, bitmap.width) as int;
    let whole = frame(framing, command, bitmap);
    let start = 1 + y * l;
    lemma_frame_layout(framing, command, bitmap, y);
    let block = whole.subrange(start, start + l);
    assert(start + l == 1 + (y + 1) * l) by (nonlinear_arith)
        requires
            start == 1 + y * l,
    ;
    let j = x / 8;
    let k = (x % 8) as u8;
    assert(0 <= j < row_len(bitmap.width));
    bitmap.lemma_row_byte_bit(y, j, k);
    assert(bitmap.row(y)[j] == bitmap.row_byte(y, j));
    match framing {
        Framing::AddressedLine => {
            assert(block[1 + j] == bitmap.row(y)[j]);
            assert(block[1 + j] == whole[start + 1 + j]);
        },
        Framing::Sequential => {
            assert(block[j] == bitmap.row(y)[j]);
            assert(block[j] == whole[start + j]);
        },
    }
}

/// Append row `y` to `out` as it goes over the wire. Where the width is a
/// whole number of bytes the packed bytes of the row go out as they lie in
/// the buffer; a narrower last byte is put together pixel by pixel.
fn push_line(framing: Framing, pixels: &PixelBuffer, y: u8, out: &mut Vec<u8>)
    requires
        pixels.wf(),
        y < pixels@.height,
    ensures
        final(out)@ == old(out)@ + line(framing, pixels@, y as int),
{
    let ghost start = out@;
    match framing {
        Framing::AddressedLine => {
            out.push(y + 1);
        },
        Framing::Sequential => {},
    }
    let ghost head = out@;
    let width = pixels.width();
    let row_bytes: u8 = ((width as u16 + 7) / 8) as u8;
    let aligned = width % 8 == 0;
    assert(0 <= y as int * row_bytes as int <= 255 * 32) by (nonlinear_arith)
        requires
            0 <= y <= 255,
            0 <= row_bytes <= 32,
    ;
    let first: usize = y as usize * row_bytes as usize;
    proof {
        if aligned {
            pixels@.lemma_aligned_row(y as int);
            assert((y + 1) * row_bytes == y * row_bytes + row_bytes) by (nonlinear_arith);
        }
    }
    let mut j: u8 = 0;
    while j < row_bytes
        invariant
            j <= row_bytes,
            row_bytes == row_len(pixels@.width),
            pixels.wf(),
            first == y * row_bytes,
            first <= 255 * 32,
            aligned ==> first + row_bytes <= pixels@.bytes.len() && pixels@.row(y as int)
                == pixels@.bytes.subrange(first as int, first + row_bytes),
            out@ == head + pixels@.row(y as int).take(j as int),
        decreases row_bytes - j,
    {
        let byte = if aligned {
            pixels.as_bytes()[first + j as usize]
        } else {
            pixels.row_byte(y, j)
        };
        assert(byte == pixels@.row(y as int)[j as int]);
        out.push(byte);
        j += 1;
        assert(pixels@.row(y as int).take(j as int) =~= pixels@.row(y as int).take(j - 1).push(
            byte,
        ));
    }
    assert(pixels@.row(y as int).take(row_bytes as int) =~= pixels@.row(y as int));
    out.push(0u8);
    assert(out@ =~= start + line(framing, pixels@, y as int));
}

/// The bytes of a write transfer for the given pixels, command byte first.
pub fn encode_frame(framing: Framing, command: u8, pixels: &PixelBuffer) -> (out: Vec<u8>)
    requires
        pixels.wf(),
    ensures
        out@ == frame(framing, command, pixels@),
{
    let mut out: Vec<u8> = Vec::new();
    out.push(command);
    let height = pixels.height();
    let mut y: u8 = 0;
    while y < height
        invariant
            y <= height,
            height == pixels@.height,
            pixels.wf(),
            out@ == seq![command] + lines(framing, pixels@, y as nat),
        decreases height - y,
    {
        push_line(framing, pixels, y, &mut out);
        y += 1;
        assert(out@ =~= seq![command] + lines(framing, pixels@, y as nat));
    }
    out.push(0u8);
    out
}

/// The bytes of a clear transfer, command byte first.
pub fn encode_clear(command: u8) -> (out: Vec<u8>)
    ensures
        out@ == clear_frame(command),
{
    let mut out: Vec<u8> = Vec::new();
    out.push(command);
    out.push(0u8);
    assert(out@ =~= clear_frame(command));
    out
}

} // verus!
