//! Packed storage for a frame of one-bit pixels.
//!
//! Pixels are addressed row by row by the index `y * width + x`. Eight pixels
//! share a byte, and the most significant bit of a byte holds the pixel with
//! the lowest index.
use vstd::prelude::*;
use std::marker::PhantomData;
use crate::geometry::{Point, Size};

verus! {

/// A colour that a one-bit frame can hold: it is either on or off.
pub trait BinarisedColor: Sized {
    /// Whether the colour stands for a set bit.
    spec fn is_on(&self) -> bool;

    /// The bit that stores the colour.
    fn to_binary_color(&self) -> (on: bool)
        ensures
            on == self.is_on(),
    ;

    /// The colour that a stored bit stands for.
    fn from_binary_color(value: bool) -> (color: Self)
        ensures
            color.is_on() == value,
    ;
}

/// The two colours of a one-bit panel.
#[derive(Debug, Clone, Copy, PartialEq, Eq, Structural)]
pub enum BinaryColor {
    Off,
    On,
}

impl BinarisedColor for BinaryColor {
    open spec fn is_on(&self) -> bool {
        *self == BinaryColor::On
    }

    fn to_binary_color(&self) -> (on: bool) {
        match self {
            BinaryColor::On => true,
            BinaryColor::Off => false,
        }
    }

    fn from_binary_color(value: bool) -> (color: Self) {
        if value {
            BinaryColor::On
        } else {
            BinaryColor::Off
        }
    }
}

impl Default for BinaryColor {
    fn default() -> (color: Self)
        ensures
            color == BinaryColor::Off,
    {
        BinaryColor::Off
    }
}

/// A coordinate together with the colour found or wanted there.
#[derive(Debug)]
pub struct Pixel<C>(pub Point, pub C);

/// Number of bytes that hold `bits` packed bits.
pub open spec fn byte_count(bits: int) -> int {
    (bits + 7) / 8
}

/// Value of the bit at position `bit` of `byte`, counted from the most
/// significant bit.
pub open spec fn bit_of(byte: u8, bit: int) -> bool {
    byte & (1u8 << ((7 - bit) as u8)) != 0
}

/// Value of the packed bit `index` of `bytes`.
pub open spec fn packed_bit(bytes: Seq<u8>, index: int) -> bool {
    bit_of(bytes[index / 8], index % 8)
}

/// The pixels that the first `bits` packed bits of `bytes` spell out.
pub open spec fn unpack(bytes: Seq<u8>, bits: int) -> Seq<bool> {
    Seq::new(bits as nat, |i: int| packed_bit(bytes, i))
}

/// Setting or clearing the bit `bit` of a byte changes that bit and no
/// other.
pub proof fn lemma_set_bit(byte: u8, bit: u8, other: u8)
    requires
        bit < 8,
        other < 8,
    ensures
        bit_of(byte | (1u8 << ((7 - bit) as u8)), other as int) == (other == bit || bit_of(
            byte,
            other as int,
        )),
        bit_of(byte & !(1u8 << ((7 - bit) as u8)), other as int) == (other != bit && bit_of(
            byte,
            other as int,
        )),
{
    let m: u8 = (7 - bit) as u8;
    let n: u8 = (7 - other) as u8;
    assert(m < 8 && n < 8);
    assert(((byte | (1u8 << m)) & (1u8 << n) != 0) == (n == m || (byte & (1u8 << n) != 0)))
        by (bit_vector)
        requires
            m < 8,
            n < 8,
    ;
    assert(((byte & !(1u8 << m)) & (1u8 << n) != 0) == (n != m && (byte & (1u8 << n) != 0)))
        by (bit_vector)
        requires
            m < 8,
            n < 8,
    ;
}

/// Number of bytes needed for `width` packed bits.
pub fn bits_to_bytes_size(width: usize) -> (bytes: usize)
    ensures
        bytes == byte_count(width as int),
{
    width / 8 + if width % 8 == 0 {
        0
    } else {
        1
    }
}

/// Place of the packed bit `index`: the byte that holds it and the mask that
/// selects it there.
pub fn get_bit(index: usize) -> (place: (usize, u8))
    ensures
        place.0 == index / 8,
        place.1 == 1u8 << ((7 - index % 8) as u8),
{
    let byte: usize = index / 8;
    let bit: usize = index % 8;
    let shift: u8 = (7 - bit) as u8;
    let mask: u8 = 1u8 << shift;
    (byte, mask)
}

/// A frame of `width` by `height` one-bit pixels in packed storage.
#[derive(Debug)]
pub struct BinaryFrameBuffer<C> {
    width: u32,
    height: u32,
    size: usize,
    buffer: Vec<u8>,
    _color: PhantomData<C>,
}

impl<C> View for BinaryFrameBuffer<C> {
    type V = Seq<bool>;

    /// The pixels of the frame, row by row.
    closed spec fn view(&self) -> Seq<bool> {
        unpack(self.buffer@, self.size as int)
    }
}

impl<C> BinaryFrameBuffer<C> {
    /// The raw bytes of the packed storage.
    pub closed spec fn bytes(&self) -> Seq<u8> {
        self.buffer@
    }

    /// Width of the frame in pixels.
    pub closed spec fn spec_width(&self) -> u32 {
        self.width
    }

    /// Height of the frame in pixels.
    pub closed spec fn spec_height(&self) -> u32 {
        self.height
    }

    /// The frame is consistent: the storage has one bit for each pixel.
    pub closed spec fn wf(&self) -> bool {
        &&& self.size == self.width * self.height
        &&& self.buffer@.len() == byte_count(self.size as int)
    }

    /// The facts that tie the pixels of a consistent frame to its bytes.
    pub proof fn lemma_view(&self)
        requires
            self.wf(),
        ensures
            self@.len() == self.spec_width() * self.spec_height(),
            self.spec_width() * self.spec_height() <= usize::MAX,
            self.bytes().len() == byte_count(self@.len() as int),
            self@ == unpack(self.bytes(), self@.len() as int),
    {
    }

    /// A frame of the given size with every pixel off.
    pub fn new(width: u32, height: u32) -> (frame: Self)
        requires
            width * height <= u32::MAX,
        ensures
            frame.wf(),
            frame.spec_width() == width,
            frame.spec_height() == height,
            frame@ == Seq::new((width * height) as nat, |i: int| false),
            frame.bytes() == Seq::new(byte_count(width * height) as nat, |i: int| 0u8),
    {
        let size: usize = (width as u64 * height as u64) as usize;
        let length: usize = bits_to_bytes_size(size);
        let mut buffer: Vec<u8> = Vec::new();
        let mut i: usize = 0;
        while i < length
            invariant
                i <= length,
                buffer@.len() == i,
                forall|k: int| 0 <= k < i ==> buffer@[k] == 0u8,
            decreases length - i,
        {
            buffer.push(0u8);
            i += 1;
        }
        let frame = BinaryFrameBuffer { width, height, size, buffer, _color: PhantomData };
        proof {
            assert forall|k: int| 0 <= k < size implies !packed_bit(frame.buffer@, k) by {
                let m: u8 = (7 - k % 8) as u8;
                assert(0u8 & (1u8 << m) == 0) by (bit_vector);
            }
            assert(frame@ =~= Seq::new((width * height) as nat, |i: int| false));
            assert(frame.bytes() =~= Seq::new(byte_count(width * height) as nat, |i: int| 0u8));
        }
        frame
    }

    /// Width of the frame in pixels.
    pub fn width(&self) -> (width: u32)
        ensures
            width == self.spec_width(),
    {
        self.width
    }

    /// Height of the frame in pixels.
    pub fn height(&self) -> (height: u32)
        ensures
            height == self.spec_height(),
    {
        self.height
    }

    /// Width and height of the frame.
    pub fn dimensions(&self) -> (size: Size)
        ensures
            size.width == self.spec_width(),
            size.height == self.spec_height(),
    {
        Size { width: self.width, height: self.height }
    }

    /// The packed bytes, as they are handed to the hardware.
    pub fn buffer(&self) -> (bytes: &[u8])
        ensures
            bytes@ == self.bytes(),
    {
        self.buffer.as_slice()
    }

    /// The pixel with the given index.
    pub fn get_bit(&self, index: usize) -> (value: bool)
        requires
            self.wf(),
            index < self@.len(),
        ensures
            value == self@[index as int],
    {
        let (byte, mask) = get_bit(index);
        self.buffer[byte] & mask != 0
    }

    /// Sets the pixel with the given index and leaves all others as they are.
    pub fn set_bit(&mut self, index: usize, value: bool)
        requires
            old(self).wf(),
            index < old(self)@.len(),
        ensures
            final(self).wf(),
            final(self).spec_width() == old(self).spec_width(),
            final(self).spec_height() == old(self).spec_height(),
            final(self)@ == old(self)@.update(index as int, value),
            final(self)@[index as int] == value,
    {
        let (byte, mask) = get_bit(index);
        let before: u8 = self.buffer[byte];
        let after: u8 = if value {
            before | mask
        } else {
            before & !mask
        };
        self.buffer.set(byte, after);
        proof {
            let bit: u8 = (index % 8) as u8;
            assert forall|k: int| 0 <= k < self.size implies packed_bit(self.buffer@, k) == old(
                self,
            )@.update(index as int, value)[k] by {
                if k / 8 == byte {
                    lemma_set_bit(before, bit, (k % 8) as u8);
                }
            }
            assert(self@ =~= old(self)@.update(index as int, value));
        }
    }

    /// Copies this frame over `previous` byte by byte and tells whether any
    /// byte of `previous` had to change.
    pub fn updated(&self, previous: &mut Self) -> (changed: bool)
        requires
            self.wf(),
            old(previous).wf(),
            self@.len() == old(previous)@.len(),
        ensures
            final(previous).wf(),
            final(previous).spec_width() == old(previous).spec_width(),
            final(previous).spec_height() == old(previous).spec_height(),
            final(previous).bytes() == self.bytes(),
            final(previous)@ == self@,
            changed == (old(previous).bytes() != self.bytes()),
    {
        let mut result: bool = false;
        let length: usize = bits_to_bytes_size(self.size);
        let mut i: usize = 0;
        while i < length
            invariant
                i <= length,
                length == self.buffer@.len(),
                previous.buffer@.len() == length,
                previous.size == old(previous).size,
                previous.width == old(previous).width,
                previous.height == old(previous).height,
                forall|k: int| 0 <= k < i ==> previous.buffer@[k] == self.buffer@[k],
                forall|k: int| i <= k < length ==> previous.buffer@[k] == old(previous).buffer@[k],
                result == exists|k: int| 0 <= k < i && old(previous).buffer@[k] != self.buffer@[k],
            decreases length - i,
        {
            let new_value: u8 = self.buffer[i];
            if new_value != previous.buffer[i] {
                previous.buffer.set(i, new_value);
                result = true;
            }
            i += 1;
        }
        proof {
            assert(previous.buffer@ =~= self.buffer@);
            if !result {
                assert(old(previous).buffer@ =~= self.buffer@);
            }
        }
        result
    }

    /// Overwrites the leading bytes of the storage with `buffer`.
    pub fn from_buffer(&mut self, buffer: &[u8])
        requires
            old(self).wf(),
            buffer@.len() <= old(self).bytes().len(),
        ensures
            final(self).wf(),
            final(self).spec_width() == old(self).spec_width(),
            final(self).spec_height() == old(self).spec_height(),
            final(self).bytes() == buffer@ + old(self).bytes().skip(buffer@.len() as int),
    {
        let length: usize = buffer.len();
        let mut i: usize = 0;
        while i < length
            invariant
                i <= length,
                length == buffer@.len(),
                self.buffer@.len() == old(self).buffer@.len(),
                length <= self.buffer@.len(),
                self.size == old(self).size,
                self.width == old(self).width,
                self.height == old(self).height,
                forall|k: int| 0 <= k < i ==> self.buffer@[k] == buffer@[k],
                forall|k: int|
                    i <= k < self.buffer@.len() ==> self.buffer@[k] == old(self).buffer@[k],
            decreases length - i,
        {
            self.buffer.set(i, buffer[i]);
            i += 1;
        }
        proof {
            assert(self.buffer@ =~= buffer@ + old(self).buffer@.skip(buffer@.len() as int));
        }
    }

    /// Sets every pixel of the frame to `value`.
    pub fn fill(&mut self, value: bool)
        requires
            old(self).wf(),
        ensures
            final(self).wf(),
            final(self).spec_width() == old(self).spec_width(),
            final(self).spec_height() == old(self).spec_height(),
            final(self)@ == Seq::new(old(self)@.len(), |i: int| value),
    {
        let length: usize = self.buffer.len();
        let byte: u8 = if value {
            0xffu8
        } else {
            0u8
        };
        let mut i: usize = 0;
        while i < length
            invariant
                i <= length,
                length == self.buffer@.len(),
                self.buffer@.len() == old(self).buffer@.len(),
                self.size == old(self).size,
                self.width == old(self).width,
                self.height == old(self).height,
                forall|k: int| 0 <= k < i ==> self.buffer@[k] == byte,
            decreases length - i,
        {
            self.buffer.set(i, byte);
            i += 1;
        }
        proof {
            assert forall|k: int| 0 <= k < self.size implies packed_bit(self.buffer@, k)
                == value by {
                let m: u8 = (7 - k % 8) as u8;
                assert(m < 8 ==> 0u8 & (1u8 << m) == 0) by (bit_vector);
                assert(m < 8 ==> 0xffu8 & (1u8 << m) != 0) by (bit_vector);
            }
            assert(self@ =~= Seq::new(old(self)@.len(), |i: int| value));
        }
    }
}

impl<C: BinarisedColor> BinaryFrameBuffer<C> {
    /// Sets the pixel in column `x` of row `y` to the bit of `color`.
    pub fn set_pixel(&mut self, x: u32, y: u32, color: C)
        requires
            old(self).wf(),
            x < old(self).spec_width(),
            y < old(self).spec_height(),
        ensures
            final(self).wf(),
            final(self).spec_width() == old(self).spec_width(),
            final(self).spec_height() == old(self).spec_height(),
            final(self)@ == old(self)@.update(y * old(self).spec_width() + x, color.is_on()),
    {
        proof {
            lemma_pixel_index(x as int, y as int, self.width as int, self.height as int);
        }
        let index: usize = (y as u64 * self.width as u64 + x as u64) as usize;
        self.set_bit(index, color.to_binary_color());
    }

    /// The colour of the pixel in column `x` of row `y`.
    pub fn get_pixel(&self, x: u32, y: u32) -> (color: C)
        requires
            self.wf(),
            x < self.spec_width(),
            y < self.spec_height(),
        ensures
            color.is_on() == self@[y * self.spec_width() + x],
    {
        proof {
            lemma_pixel_index(x as int, y as int, self.width as int, self.height as int);
        }
        let index: usize = (y as u64 * self.width as u64 + x as u64) as usize;
        let b: bool = self.get_bit(index);
        C::from_binary_color(b)
    }

    /// Every pixel of the frame with its coordinate, row by row.
    pub fn iter(&self) -> (pixels: Vec<Pixel<C>>)
        requires
            self.wf(),
            self.spec_width() <= i32::MAX,
            self.spec_height() <= i32::MAX,
        ensures
            pixels@.len() == self@.len(),
            forall|i: int|
                0 <= i < pixels@.len() ==> {
                    &&& (#[trigger] pixels@[i]).0.x == i % (self.spec_width() as int)
                    &&& pixels@[i].0.y == i / (self.spec_width() as int)
                    &&& pixels@[i].1.is_on() == self@[i]
                },
    {
        let mut pixels: Vec<Pixel<C>> = Vec::new();
        let mut i: usize = 0;
        while i < self.size
            invariant
                self.wf(),
                self.spec_width() <= i32::MAX,
                self.spec_height() <= i32::MAX,
                i <= self.size,
                pixels@.len() == i,
                forall|k: int|
                    0 <= k < i ==> {
                        &&& (#[trigger] pixels@[k]).0.x == k % (self.width as int)
                        &&& pixels@[k].0.y == k / (self.width as int)
                        &&& pixels@[k].1.is_on() == self@[k]
                    },
            decreases self.size - i,
        {
            proof {
                lemma_index_point(i as int, self.width as int, self.height as int);
            }
            let b: bool = self.get_bit(i);
            let x: i32 = (i % self.width as usize) as i32;
            let y: i32 = (i / self.width as usize) as i32;
            pixels.push(Pixel(Point { x, y }, C::from_binary_color(b)));
            i += 1;
        }
        pixels
    }
}

/// The index of a pixel inside a frame stays below the number of pixels.
pub proof fn lemma_pixel_index(x: int, y: int, width: int, height: int)
    requires
        0 <= x < width,
        0 <= y < height,
    ensures
        0 <= y * width + x < width * height,
        (y * width + x) / width == y,
        (y * width + x) % width == x,
{
    assert(y * width + x < width * height) by (nonlinear_arith)
        requires
            0 <= x < width,
            0 <= y < height,
    ;
    assert(0 <= y * width) by (nonlinear_arith)
        requires
            0 <= y,
            0 <= width,
    ;
    vstd::arithmetic::div_mod::lemma_fundamental_div_mod_converse(y * width + x, width, y, x);
}

/// The coordinate of a pixel index lies inside the frame.
pub proof fn lemma_index_point(index: int, width: int, height: int)
    requires
        0 <= index < width * height,
        0 <= width,
        0 <= height,
    ensures
        0 < width,
        0 <= index % width < width,
        0 <= index / width < height,
        (index / width) * width + index % width == index,
{
    assert(0 < width) by (nonlinear_arith)
        requires
            0 <= index < width * height,
            0 <= width,
    ;
    vstd::arithmetic::div_mod::lemma_fundamental_div_mod(index, width);
    assert(0 <= index / width < height) by (nonlinear_arith)
        requires
            0 <= index < width * height,
            0 < width,
            index == width * (index / width) + index % width,
            0 <= index % width < width,
    ;
    assert((index / width) * width == width * (index / width)) by (nonlinear_arith);
}

} // verus!
