//! Raw images: a flat buffer of four bytes per pixel (red, green, blue,
//! alpha), row after row.

use vstd::prelude::*;
use crate::colour::Rgb;

verus! {

/// A decoded image.
pub struct Image {
    pub pixels: Vec<u8>,
    pub width: u32,
    pub height: u32,
}

impl Image {
    /// The buffer holds exactly `width * height` pixels of four bytes.
    pub open spec fn wf(&self) -> bool {
        self.pixels@.len() == 4 * self.width * self.height
    }

    /// The image made of a buffer and its size.
    pub fn new(pixels: Vec<u8>, width: u32, height: u32) -> (image: Image)
        ensures
            image.pixels == pixels,
            image.width == width,
            image.height == height,
    {
        Image { pixels, width, height }
    }

    /// The number of pixels in a row.
    pub fn get_width(&self) -> (width: u32)
        ensures
            width == self.width,
    {
        self.width
    }

    /// The number of rows.
    pub fn get_height(&self) -> (height: u32)
        ensures
            height == self.height,
    {
        self.height
    }
}

/// The number of pixels that a buffer of `len` bytes holds. A last pixel
/// without its alpha byte counts.
pub open spec fn pixel_count(len: nat) -> nat {
    (len + 1) / 4
}

/// The colour of pixel `i` of a buffer: its first three bytes.
pub open spec fn colour_at(raw: Seq<u8>, i: int) -> Rgb {
    Rgb { r: raw[4 * i], g: raw[4 * i + 1], b: raw[4 * i + 2] }
}

/// The colours of all pixels of a buffer, in order.
pub open spec fn colours_of(raw: Seq<u8>) -> Seq<Rgb> {
    Seq::new(pixel_count(raw.len()), |i: int| colour_at(raw, i))
}

/// Reads the colour of every pixel of a buffer and drops the alpha bytes.
///
/// The buffer's last pixel must have at least its three colour bytes.
pub fn pixel_colours(raw_pixels: &Vec<u8>) -> (colours: Vec<Rgb>)
    requires
        raw_pixels@.len() % 4 == 0 || raw_pixels@.len() % 4 == 3,
    ensures
        colours@ == colours_of(raw_pixels@),
{
    let len: usize = raw_pixels.len();
    let count: usize = len / 4 + (if len % 4 == 3 { 1usize } else { 0usize });
    let mut colours: Vec<Rgb> = Vec::with_capacity(count);
    let mut i: usize = 0;
    while i < count
        invariant
            len == raw_pixels@.len(),
            len % 4 == 0 || len % 4 == 3,
            count == pixel_count(len as nat),
            i <= count,
            colours@.len() == i,
            forall|k: int| 0 <= k < i ==> colours@[k] == colour_at(raw_pixels@, k),
        decreases count - i,
    {
        let at: usize = 4 * i;
        colours.push(Rgb::new(raw_pixels[at], raw_pixels[at + 1], raw_pixels[at + 2]));
        i += 1;
    }
    assert(colours@ =~= colours_of(raw_pixels@));
    colours
}

} // verus!
