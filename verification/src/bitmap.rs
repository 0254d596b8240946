//! The packed one-bit-per-pixel frame buffer.
//!
//! Pixels are numbered row by row from the top left corner and packed eight
//! to a byte, least significant bit first. A set bit is a dark pixel.

use crate::bits::{
    bit_is_set, lemma_packed_bit, lemma_same_bits, lemma_with_bit, lemma_zero_has_no_bit, packed,
    with_bit,
};
use vstd::prelude::*;

verus! {

/// Number of pixel `(x, y)` in a bitmap that is `width` pixels wide.
pub open spec fn bit_index(width: int, x: int, y: int) -> int {
    y * width + x
}

/// Bytes needed to hold `width * height` pixels.
pub open spec fn packed_len(width: nat, height: nat) -> nat {
    (width * height + 7) / 8
}

/// Bytes needed to hold one row of `width` pixels, the last byte padded.
pub open spec fn row_len(width: nat) -> nat {
    (width + 7) / 8
}

/// Pixels inside a `width` by `height` bitmap have numbers below
/// `width * height`, and the number of a pixel tells its row and its place
/// in the row: no two pixels share a number.
pub proof fn lemma_bit_index(width: int, height: int, x: int, y: int)
    requires
        0 <= x < width,
        0 <= y < height,
    ensures
        0 <= bit_index(width, x, y) < width * height,
        bit_index(width, x, y) / width == y,
        bit_index(width, x, y) % width == x,
{
    assert(0 <= y * width <= (height - 1) * width) by (nonlinear_arith)
        requires
            0 <= y <= height - 1,
            0 < width,
    ;
    assert((height - 1) * width == width * height - width) by (nonlinear_arith);
    vstd::arithmetic::div_mod::lemma_fundamental_div_mod_converse(y * width + x, width, y, x);
}

/// The mathematical content of a pixel buffer: its dimensions and its packed
/// bytes.
pub struct Bitmap {
    pub width: nat,
    pub height: nat,
    pub bytes: Seq<u8>,
}

impl Bitmap {
    /// The bytes hold exactly the pixels of the bitmap, rounded up to a whole
    /// byte.
    pub open spec fn wf(self) -> bool {
        self.bytes.len() == packed_len(self.width, self.height)
    }

    /// The bitmap of the given size with every pixel light.
    pub open spec fn blank(width: nat, height: nat) -> Bitmap {
        Bitmap { width, height, bytes: Seq::new(packed_len(width, height), |i: int| 0u8) }
    }

    /// Whether `(x, y)` names a pixel of the bitmap.
    pub open spec fn in_range(self, x: int, y: int) -> bool {
        0 <= x < self.width && 0 <= y < self.height
    }

    /// Index of the byte that holds pixel `(x, y)`.
    pub open spec fn byte_of(self, x: int, y: int) -> int {
        bit_index(self.width as int, x, y) / 8
    }

    /// Number of the bit, within its byte, that holds pixel `(x, y)`.
    pub open spec fn bit_of(self, x: int, y: int) -> u8 {
        (bit_index(self.width as int, x, y) % 8) as u8
    }

    /// Whether pixel `(x, y)` is dark.
    pub open spec fn pixel(self, x: int, y: int) -> bool
        recommends
            self.in_range(x, y),
    {
        bit_is_set(self.bytes[self.byte_of(x, y)], self.bit_of(x, y))
    }

    /// The bitmap with pixel `(x, y)` made dark or light. Coordinates outside
    /// the bitmap leave it as it is.
    pub open spec fn with_pixel(self, x: int, y: int, dark: bool) -> Bitmap {
        if self.in_range(x, y) {
            Bitmap {
                bytes: self.bytes.update(
                    self.byte_of(x, y),
                    with_bit(self.bytes[self.byte_of(x, y)], self.bit_of(x, y), dark),
                ),
                ..self
            }
        } else {
            self
        }
    }

    /// The bitmap with every byte zeroed.
    pub open spec fn cleared(self) -> Bitmap {
        Bitmap { bytes: Seq::new(self.bytes.len(), |i: int| 0u8), ..self }
    }

    /// Whether `(x, y)` shows dark on the panel: a dark pixel of the bitmap.
    /// What lies outside the bitmap is light.
    pub open spec fn dark_at(self, x: int, y: int) -> bool {
        self.in_range(x, y) && self.pixel(x, y)
    }

    /// Byte `j` of row `y` as the panel takes it: pixel `8 * j + k` of the
    /// row in bit `k`.
    pub open spec fn row_byte(self, y: int, j: int) -> u8 {
        packed(|k: int| self.dark_at(8 * j + k, y), 8)
    }

    /// Row `y` as the panel takes it: its pixels packed eight to a byte, the
    /// last byte padded with light pixels.
    pub open spec fn row(self, y: int) -> Seq<u8> {
        Seq::new(row_len(self.width), |j: int| self.row_byte(y, j))
    }

    /// Every pixel of the bitmap has a byte of its own to live in.
    pub proof fn lemma_byte_in_bounds(self, x: int, y: int)
        requires
            self.wf(),
            self.in_range(x, y),
        ensures
            0 <= self.byte_of(x, y) < self.bytes.len(),
            self.bit_of(x, y) < 8,
    {
        lemma_bit_index(self.width as int, self.height as int, x, y);
    }

    /// A pixel that was written reads back as written, and writing it
    /// changes no other pixel of the bitmap.
    pub proof fn lemma_write_then_read(self, x: int, y: int, dark: bool, x2: int, y2: int)
        requires
            self.wf(),
            self.in_range(x, y),
            self.in_range(x2, y2),
        ensures
            self.with_pixel(x, y, dark).pixel(x2, y2) == (if x2 == x && y2 == y {
                dark
            } else {
                self.pixel(x2, y2)
            }),
    {
        let w = self.width as int;
        let h = self.height as int;
        self.lemma_byte_in_bounds(x, y);
        self.lemma_byte_in_bounds(x2, y2);
        lemma_bit_index(w, h, x, y);
        lemma_bit_index(w, h, x2, y2);
        let after = self.with_pixel(x, y, dark);
        assert(after.byte_of(x2, y2) == self.byte_of(x2, y2));
        assert(after.bit_of(x2, y2) == self.bit_of(x2, y2));
        if self.byte_of(x2, y2) == self.byte_of(x, y) {
            lemma_with_bit(
                self.bytes[self.byte_of(x, y)],
                self.bit_of(x, y),
                dark,
                self.bit_of(x2, y2),
            );
            if self.bit_of(x2, y2) == self.bit_of(x, y) {
                assert(bit_index(w, x, y) == bit_index(w, x2, y2));
            }
        }
    }

    /// Coordinates outside the bitmap write nothing.
    pub proof fn lemma_write_out_of_range(self, x: int, y: int, dark: bool)
        requires
            !self.in_range(x, y),
        ensures
            self.with_pixel(x, y, dark) == self,
    {
    }

    /// After clearing, every pixel is light.
    pub proof fn lemma_cleared_is_light(self, x: int, y: int)
        requires
            self.wf(),
            self.in_range(x, y),
        ensures
            self.cleared().wf(),
            !self.cleared().pixel(x, y),
    {
        self.lemma_byte_in_bounds(x, y);
        lemma_zero_has_no_bit(self.bit_of(x, y));
    }

    /// Writing a pixel keeps the bitmap well formed; the pixel then reads
    /// as written and every other pixel as before.
    pub proof fn lemma_with_pixel(self, x: int, y: int, dark: bool)
        requires
            self.wf(),
        ensures
            self.with_pixel(x, y, dark).wf(),
            self.with_pixel(x, y, dark).width == self.width,
            self.with_pixel(x, y, dark).height == self.height,
            forall|x2: int, y2: int|
                self.in_range(x2, y2) ==> #[trigger] self.with_pixel(x, y, dark).pixel(x2, y2)
                    == (if x2 == x && y2 == y {
                    dark
                } else {
                    self.pixel(x2, y2)
                }),
    {
        if self.in_range(x, y) {
            self.lemma_byte_in_bounds(x, y);
            assert forall|x2: int, y2: int| self.in_range(x2, y2) implies #[trigger] self.with_pixel(
                x,
                y,
                dark,
            ).pixel(x2, y2) == (if x2 == x && y2 == y {
                dark
            } else {
                self.pixel(x2, y2)
            }) by {
                self.lemma_write_then_read(x, y, dark, x2, y2);
            }
        }
    }

    /// Clearing keeps the bitmap well formed and leaves every pixel light.
    pub proof fn lemma_cleared(self)
        requires
            self.wf(),
        ensures
            self.cleared().wf(),
            self.cleared().width == self.width,
            self.cleared().height == self.height,
            forall|x: int, y: int| self.in_range(x, y) ==> !#[trigger] self.cleared().pixel(x, y),
    {
        assert forall|x: int, y: int| self.in_range(x, y) implies !#[trigger] self.cleared().pixel(
            x,
            y,
        ) by {
            self.lemma_cleared_is_light(x, y);
        }
    }

    /// Clearing twice is the same as clearing once.
    pub proof fn lemma_cleared_twice(self)
        ensures
            self.cleared().cleared() == self.cleared(),
    {
        assert(self.cleared().cleared().bytes =~= self.cleared().bytes);
    }

    /// Bit `k` of byte `j` of row `y` is pixel `(8 * j + k, y)`.
    pub proof fn lemma_row_byte_bit(self, y: int, j: int, k: u8)
        requires
            k < 8,
        ensures
            bit_is_set(self.row_byte(y, j), k) == self.dark_at(8 * j + k, y),
    {
        lemma_packed_bit(|k: int| self.dark_at(8 * j + k, y), 8, k);
    }

    /// Where the width is a whole number of bytes, the rows lie in the
    /// buffer as the panel takes them: row `y` is the `y`-th run of
    /// `width / 8` bytes.
    pub proof fn lemma_aligned_row(self, y: int)
        requires
            self.wf(),
            self.width % 8 == 0,
            0 <= y < self.height,
        ensures
            0 <= y * row_len(self.width) <= (y + 1) * row_len(self.width) <= self.bytes.len(),
            self.row(y) == self.bytes.subrange(
                y * row_len(self.width),
                (y + 1) * row_len(self.width),
            ),
    {
        let w = self.width as int;
        let h = self.height as int;
        let r = row_len(self.width) as int;
        assert(w == 8 * r);
        assert(w * h == 8 * (r * h)) by (nonlinear_arith)
            requires
                w == 8 * r,
        ;
        assert(self.bytes.len() == r * h);
        assert(0 <= y * r && (y + 1) * r <= r * h && (y + 1) * r == y * r + r) by (nonlinear_arith)
            requires
                0 <= y < h,
                0 <= r,
        ;
        let slice = self.bytes.subrange(y * r, (y + 1) * r);
        assert forall|j: int| 0 <= j < r implies self.row_byte(y, j) == slice[j] by {
            assert forall|k: u8| k < 8 implies bit_is_set(self.row_byte(y, j), k) == bit_is_set(
                slice[j],
                k,
            ) by {
                self.lemma_row_byte_bit(y, j, k);
                let x = 8 * j + k;
                assert(self.in_range(x, y));
                assert(bit_index(w, x, y) == 8 * (y * r + j) + k) by (nonlinear_arith)
                    requires
                        w == 8 * r,
                        x == 8 * j + k,
                ;
            }
            lemma_same_bits(self.row_byte(y, j), slice[j]);
        }
        assert(self.row(y) =~= slice);
    }
}

/// Locate pixel `(x, y)` in a bitmap that is `width` pixels wide: the index
/// of the byte that holds it and the number of its bit within that byte.
pub fn get_index(width: u8, x: u8, y: u8) -> (place: (usize, u8))
    ensures
        place.0 == bit_index(width as int, x as int, y as int) / 8,
        place.1 == bit_index(width as int, x as int, y as int) % 8,
{
    assert(0 <= y as int * width as int <= 255 * 255) by (nonlinear_arith)
        requires
            0 <= y <= 255,
            0 <= width <= 255,
    ;
    let into: usize = y as usize * width as usize + x as usize;
    ((into / 8), (into % 8) as u8)
}

/// A packed bitmap of fixed size.
pub struct PixelBuffer {
    width: u8,
    height: u8,
    bytes: Vec<u8>,
}

impl View for PixelBuffer {
    type V = Bitmap;

    closed spec fn view(&self) -> Bitmap {
        Bitmap { width: self.width as nat, height: self.height as nat, bytes: self.bytes@ }
    }
}

impl PixelBuffer {
    /// The buffer holds exactly the bytes its dimensions call for.
    pub open spec fn wf(&self) -> bool {
        &&& self@.wf()
        &&& self@.width <= u8::MAX
        &&& self@.height <= u8::MAX
    }

    /// A buffer of `width` by `height` pixels, all of them light.
    pub fn new(width: u8, height: u8) -> (buffer: PixelBuffer)
        ensures
            buffer.wf(),
            buffer@ == Bitmap::blank(width as nat, height as nat),
    {
        assert(0 <= width as int * height as int <= 255 * 255) by (nonlinear_arith)
            requires
                0 <= width <= 255,
                0 <= height <= 255,
        ;
        let len: usize = (width as usize * height as usize + 7) / 8;
        let mut bytes: Vec<u8> = Vec::new();
        while bytes.len() < len
            invariant
                bytes.len() <= len,
                forall|i: int| 0 <= i < bytes.len() ==> bytes[i] == 0u8,
            decreases len - bytes.len(),
        {
            bytes.push(0u8);
        }
        let buffer = PixelBuffer { width, height, bytes };
        assert(buffer@.bytes =~= Bitmap::blank(width as nat, height as nat).bytes);
        buffer
    }

    /// Width of the bitmap in pixels.
    pub fn width(&self) -> (width: u8)
        ensures
            width == self@.width,
    {
        self.width
    }

    /// Height of the bitmap in pixels.
    pub fn height(&self) -> (height: u8)
        ensures
            height == self@.height,
    {
        self.height
    }

    /// The packed bytes, in the order in which they hold the pixels.
    pub fn as_bytes(&self) -> (bytes: &Vec<u8>)
        ensures
            bytes@ == self@.bytes,
    {
        &self.bytes
    }

    /// Make pixel `(x, y)` dark or light. Coordinates outside the bitmap are
    /// ignored.
    pub fn set_pixel(&mut self, x: u8, y: u8, dark: bool)
        requires
            old(self).wf(),
        ensures
            final(self).wf(),
            final(self)@ == old(self)@.with_pixel(x as int, y as int, dark),
            forall|x2: int, y2: int|
                old(self)@.in_range(x2, y2) ==> #[trigger] final(self)@.pixel(x2, y2) == (if x2
                    == x && y2 == y {
                    dark
                } else {
                    old(self)@.pixel(x2, y2)
                }),
    {
        proof {
            old(self)@.lemma_with_pixel(x as int, y as int, dark);
        }
        if x >= self.width || y >= self.height {
            return ;
        }
        let (index, bit) = get_index(self.width, x, y);
        proof {
            self@.lemma_byte_in_bounds(x as int, y as int);
        }
        let byte = self.bytes[index];
        let updated = if dark {
            byte | (1u8 << bit)
        } else {
            byte & !(1u8 << bit)
        };
        self.bytes.set(index, updated);
    }

    /// Whether pixel `(x, y)` is dark, or `None` for coordinates outside the
    /// bitmap.
    pub fn get_pixel(&self, x: u8, y: u8) -> (pixel: Option<bool>)
        requires
            self.wf(),
        ensures
            pixel == (if self@.in_range(x as int, y as int) {
                Some(self@.pixel(x as int, y as int))
            } else {
                None
            }),
    {
        if x >= self.width || y >= self.height {
            return None;
        }
        let (index, bit) = get_index(self.width, x, y);
        proof {
            self@.lemma_byte_in_bounds(x as int, y as int);
        }
        Some((self.bytes[index] & (1u8 << bit)) != 0)
    }

    /// Byte `j` of row `y` as the panel takes it: pixel `8 * j + k` of the
    /// row in bit `k`, with light pixels where the row has ended.
    pub fn row_byte(&self, y: u8, j: u8) -> (byte: u8)
        requires
            self.wf(),
        ensures
            byte == self@.row_byte(y as int, j as int),
    {
        let ghost bits = |k: int| self@.dark_at(8 * j + k, y as int);
        let mut byte: u8 = 0;
        let mut k: u8 = 0;
        while k < 8
            invariant
                k <= 8,
                self.wf(),
                bits == (|k: int| self@.dark_at(8 * j + k, y as int)),
                byte == packed(bits, k as nat),
            decreases 8 - k,
        {
            let x: usize = 8 * (j as usize) + k as usize;
            let dark = x <= 255 && match self.get_pixel(x as u8, y) {
                Some(dark) => dark,
                None => false,
            };
            assert(dark == bits(k as int));
            let before = byte;
            if dark {
                byte = byte | (1u8 << k);
            }
            proof {
                assert((before | 0u8) == before) by (bit_vector);
            }
            k += 1;
        }
        byte
    }

    /// Make every pixel light.
    pub fn clear(&mut self)
        requires
            old(self).wf(),
        ensures
            final(self).wf(),
            final(self)@ == old(self)@.cleared(),
            forall|x: int, y: int| old(self)@.in_range(x, y) ==> !#[trigger] final(self)@.pixel(x, y),
    {
        proof {
            old(self)@.lemma_cleared();
        }
        let len = self.bytes.len();
        let mut i: usize = 0;
        while i < len
            invariant
                i <= len,
                self.bytes.len() == len,
                self.width == old(self).width,
                self.height == old(self).height,
                forall|j: int| 0 <= j < i ==> self.bytes[j] == 0u8,
            decreases len - i,
        {
            self.bytes.set(i, 0u8);
            i += 1;
        }
        assert(self@.bytes =~= old(self)@.cleared().bytes);
    }
}

} // verus!
