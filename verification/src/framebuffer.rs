//! A frame of any size, one colour per pixel, with a pen colour.

use vstd::prelude::*;

verus! {

/// A colour with its opacity.
#[derive(Clone, Copy, Debug, PartialEq, Eq, Structural)]
pub struct Color {
    pub r: u8,
    pub g: u8,
    pub b: u8,
    pub a: u8,
}

impl Color {
    /// The colour with these channels.
    pub fn new(r: u8, g: u8, b: u8, a: u8) -> (c: Color)
        ensures
            c == (Color { r, g, b, a }),
    {
        Color { r, g, b, a }
    }
}

/// A grid of `width` by `height` pixels, row by row from the top.
pub struct Framebuffer {
    pub width: i32,
    pub height: i32,
    pub pixels: Vec<Color>,
    pub background_color: Color,
    pub current_color: Color,
}

impl Framebuffer {
    /// The invariant: one colour per pixel.
    pub open spec fn wf(&self) -> bool {
        &&& 0 <= self.width
        &&& 0 <= self.height
        &&& self.pixels@.len() == self.width * self.height
    }

    /// Whether `(x, y)` is a pixel of this frame.
    pub open spec fn holds(&self, x: int, y: int) -> bool {
        0 <= x < self.width && 0 <= y < self.height
    }

    /// The colour at `(x, y)`.
    pub open spec fn at(&self, x: int, y: int) -> Color {
        self.pixels@[y * self.width + x]
    }

    /// A pixel's place in the row-major order is within the pixels.
    pub proof fn lemma_index(&self, x: int, y: int)
        requires
            self.wf(),
            self.holds(x, y),
        ensures
            0 <= y * self.width,
            0 <= y * self.width + x < self.pixels@.len(),
    {
        assert(y * self.width + x < self.width * self.height) by (nonlinear_arith)
            requires
                0 <= x < self.width,
                0 <= y < self.height,
        ;
        assert(0 <= y * self.width) by (nonlinear_arith)
            requires
                0 <= y,
                0 <= self.width,
        ;
    }

    /// Two pixels with the same place are the same pixel.
    pub proof fn lemma_index_unique(&self, x1: int, y1: int, x2: int, y2: int)
        requires
            self.holds(x1, y1),
            self.holds(x2, y2),
            y1 * self.width + x1 == y2 * self.width + x2,
        ensures
            x1 == x2,
            y1 == y2,
    {
        let w = self.width as int;
        if y1 < y2 {
            assert(y2 * w >= (y1 + 1) * w) by (nonlinear_arith)
                requires
                    y1 + 1 <= y2,
                    w >= 0,
            ;
            assert((y1 + 1) * w == y1 * w + w) by (nonlinear_arith);
        } else if y2 < y1 {
            assert(y1 * w >= (y2 + 1) * w) by (nonlinear_arith)
                requires
                    y2 + 1 <= y1,
                    w >= 0,
            ;
            assert((y2 + 1) * w == y2 * w + w) by (nonlinear_arith);
        }
    }

    /// A frame of the given size filled with `background`, which is also
    /// its pen colour.
    pub fn new_buffer(width: i32, height: i32, background: Color) -> (fb: Self)
        requires
            0 <= width,
            0 <= height,
            width * height <= usize::MAX,
        ensures
            fb.wf(),
            fb.width == width,
            fb.height == height,
            fb.background_color == background,
            fb.current_color == background,
            forall|i: int| 0 <= i < fb.pixels@.len() ==> fb.pixels@[i] == background,
    {
        assert(0 <= width * height) by (nonlinear_arith)
            requires
                0 <= width,
                0 <= height,
        ;
        let n: usize = (width as usize) * (height as usize);
        let mut pixels: Vec<Color> = Vec::new();
        let mut i: usize = 0;
        while i < n
            invariant
                i <= n,
                pixels@.len() == i,
                forall|j: int| 0 <= j < i ==> pixels@[j] == background,
            decreases n - i,
        {
            pixels.push(background);
            i = i + 1;
        }
        Framebuffer { width, height, pixels, background_color: background, current_color: background }
    }

    /// Chooses the pen colour.
    pub fn set_current_color(&mut self, color: Color)
        ensures
            *final(self) == (Framebuffer { current_color: color, ..*old(self) }),
    {
        self.current_color = color;
    }

    /// Sets the pixel at `(x, y)` to the pen colour; does nothing where
    /// `(x, y)` is outside the frame.
    pub fn set_pixel(&mut self, x: i32, y: i32)
        requires
            old(self).wf(),
        ensures
            final(self).wf(),
            final(self).width == old(self).width,
            final(self).height == old(self).height,
            final(self).background_color == old(self).background_color,
            final(self).current_color == old(self).current_color,
            old(self).holds(x as int, y as int) ==> final(self).pixels@ == old(self).pixels@.update(
                y * old(self).width + x,
                old(self).current_color,
            ),
            !old(self).holds(x as int, y as int) ==> final(self).pixels@ == old(self).pixels@,
    {
        if x >= 0 && x < self.width && y >= 0 && y < self.height {
            proof {
                self.lemma_index(x as int, y as int);
            }
            let n: usize = self.pixels.len();
            let i: usize = (y as usize) * (self.width as usize) + (x as usize);
            let c: Color = self.current_color;
            self.pixels[i] = c;
        }
    }

    /// Takes up the pen colour `color` and sets the pixel at `(x, y)` to it;
    /// outside the frame only the pen changes.
    pub fn plot(&mut self, x: i32, y: i32, color: Color)
        requires
            old(self).wf(),
        ensures
            final(self).wf(),
            final(self).width == old(self).width,
            final(self).height == old(self).height,
            final(self).background_color == old(self).background_color,
            final(self).current_color == color,
            forall|px: int, py: int|
                old(self).holds(px, py) ==> #[trigger] final(self).at(px, py) == (if px == x && py
                    == y {
                    color
                } else {
                    old(self).at(px, py)
                }),
    {
        self.set_current_color(color);
        self.set_pixel(x, y);
        proof {
            assert forall|px: int, py: int| old(self).holds(px, py) implies #[trigger] self.at(
                px,
                py,
            ) == (if px == x && py == y {
                color
            } else {
                old(self).at(px, py)
            }) by {
                old(self).lemma_index(px, py);
                if old(self).holds(x as int, y as int) {
                    old(self).lemma_index(x as int, y as int);
                    if !(px == x && py == y) {
                        if py * old(self).width + px == y * old(self).width + x {
                            old(self).lemma_index_unique(px, py, x as int, y as int);
                        }
                    }
                }
            }
        }
    }
}

} // verus!
