//! A flat RGB framebuffer with clipped rectangle drawing.
use vstd::prelude::*;
use vstd::arithmetic::div_mod::{lemma_fundamental_div_mod, lemma_fundamental_div_mod_converse};
use crate::map::{Color, lemma_cell_index};

verus! {

/// The shade every byte of a cleared framebuffer holds.
pub const BACKGROUND: u8 = 0x33;

/// Channel `k` (0 red, 1 green, 2 blue) of a color.
pub open spec fn channel(color: Color, k: int) -> u8 {
    if k == 0 {
        color.r
    } else if k == 1 {
        color.g
    } else {
        color.b
    }
}

/// The column of the pixel that byte `o` belongs to, in a buffer `width` pixels wide.
pub open spec fn pixel_x(width: int, o: int) -> int {
    (o / 3) % width
}

/// The row of the pixel that byte `o` belongs to, in a buffer `width` pixels wide.
pub open spec fn pixel_y(width: int, o: int) -> int {
    (o / 3) / width
}

/// Whether byte `o` belongs to a pixel of the rectangle at (`x`, `y`) of size `w` by `h`.
pub open spec fn covers(width: int, x: int, y: int, w: int, h: int, o: int) -> bool {
    &&& x <= pixel_x(width, o) < x + w
    &&& y <= pixel_y(width, o) < y + h
}

/// The bytes after a rectangle is filled with `color`: the pixels of the
/// rectangle that lie in the buffer take the color, every other byte stays.
pub open spec fn fill_rect(
    bytes: Seq<u8>,
    width: int,
    x: int,
    y: int,
    w: int,
    h: int,
    color: Color,
) -> Seq<u8> {
    Seq::new(
        bytes.len(),
        |o: int|
            if covers(width, x, y, w, h, o) {
                channel(color, o % 3)
            } else {
                bytes[o]
            },
    )
}

/// `len` bytes of background.
pub open spec fn blank(len: nat) -> Seq<u8> {
    Seq::new(len, |o: int| BACKGROUND)
}

/// A row-major RGB buffer with a top-left origin, three bytes per pixel.
#[derive(Clone, Debug)]
pub struct Framebuffer {
    pub width: usize,
    pub height: usize,
    pub pixels: Vec<u8>,
}

/// Byte `o` belongs to pixel (`px`, `py`) exactly when it lies in that
/// pixel's three bytes.
proof fn lemma_pixel_of_byte(width: int, px: int, py: int, o: int)
    requires
        width > 0,
        0 <= px < width,
        0 <= py,
        0 <= o,
    ensures
        (pixel_x(width, o) == px && pixel_y(width, o) == py) <==> ((px + py * width) * 3 <= o < (
        px + py * width) * 3 + 3),
        (px + py * width) * 3 <= o < (px + py * width) * 3 + 3 ==> o % 3 == o - (px + py * width)
            * 3,
{
    let q = px + py * width;
    assert(0 <= py * width) by (nonlinear_arith)
        requires
            0 <= py,
            width > 0,
    ;
    lemma_fundamental_div_mod(o, 3);
    lemma_fundamental_div_mod(o / 3, width);
    if q * 3 <= o < q * 3 + 3 {
        lemma_fundamental_div_mod_converse(o, 3, q, o - q * 3);
        lemma_fundamental_div_mod_converse(q, width, py, px);
    }
    assert(py * width == width * py) by (nonlinear_arith);
    if pixel_x(width, o) == px && pixel_y(width, o) == py {
        assert(o / 3 == q);
    }
}

impl Framebuffer {
    /// The buffer holds three bytes for each of its `width * height` pixels.
    pub open spec fn wf(&self) -> bool {
        self.pixels@.len() == self.width * self.height * 3
    }

    /// A `width` by `height` buffer, cleared to the background shade.
    pub fn new(width: usize, height: usize) -> (fb: Framebuffer)
        requires
            width * height * 3 <= usize::MAX,
        ensures
            fb.wf(),
            fb.width == width,
            fb.height == height,
            fb.pixels@ == blank((width * height * 3) as nat),
    {
        let len = width * height * 3;
        let mut pixels: Vec<u8> = Vec::new();
        while pixels.len() < len
            invariant
                pixels@.len() <= len,
                forall|o: int| 0 <= o < pixels@.len() ==> pixels@[o] == BACKGROUND,
            decreases len - pixels@.len(),
        {
            pixels.push(BACKGROUND);
        }
        assert(pixels@ == blank(len as nat));
        Framebuffer { width, height, pixels }
    }

    /// Sets every byte to the background shade.
    pub fn clear(&mut self)
        requires
            old(self).wf(),
        ensures
            final(self).wf(),
            final(self).width == old(self).width,
            final(self).height == old(self).height,
            final(self).pixels@ == blank(old(self).pixels@.len()),
    {
        let len = self.pixels.len();
        let mut i: usize = 0;
        while i < len
            invariant
                i <= len,
                len == self.pixels@.len(),
                self.width == old(self).width,
                self.height == old(self).height,
                len == old(self).pixels@.len(),
                forall|o: int| 0 <= o < i ==> self.pixels@[o] == BACKGROUND,
            decreases len - i,
        {
            self.pixels.set(i, BACKGROUND);
            i = i + 1;
        }
        assert(self.pixels@ == blank(len as nat));
    }

    /// Fills the rectangle at (`x`, `y`) of size `w` by `h` with `color`,
    /// skipping every pixel outside the buffer.
    pub fn draw_rectangle(&mut self, x: usize, y: usize, w: usize, h: usize, color: Color)
        requires
            old(self).wf(),
        ensures
            final(self).wf(),
            final(self).width == old(self).width,
            final(self).height == old(self).height,
            final(self).pixels@ == fill_rect(
                old(self).pixels@,
                old(self).width as int,
                x as int,
                y as int,
                w as int,
                h as int,
                color,
            ),
    {
        let width = self.width;
        let height = self.height;
        let len = self.pixels.len();
        let ghost before = self.pixels@;
        if width == 0 || height == 0 || x >= width || y >= height {
            proof {
                assert forall|o: int| 0 <= o < before.len() implies !covers(
                    width as int,
                    x as int,
                    y as int,
                    w as int,
                    h as int,
                    o,
                ) by {
                    if width > 0 {
                        lemma_fundamental_div_mod(o / 3, width as int);
                        assert((o / 3) < width * height) by {
                            lemma_fundamental_div_mod(o, 3);
                        }
                        if pixel_y(width as int, o) >= height {
                            assert(width * pixel_y(width as int, o) >= width * height)
                                by (nonlinear_arith)
                                requires
                                    pixel_y(width as int, o) >= height,
                                    width > 0,
                            ;
                        }
                    }
                }
                assert(self.pixels@ =~= fill_rect(
                    before,
                    width as int,
                    x as int,
                    y as int,
                    w as int,
                    h as int,
                    color,
                ));
            }
            return;
        }
        let x_end: usize = if w > width - x {
            width
        } else {
            x + w
        };
        let y_end: usize = if h > height - y {
            height
        } else {
            y + h
        };
        let mut cy: usize = y;
        while cy < y_end
            invariant
                self.wf(),
                self.width == width,
                self.height == height,
                0 < width,
                x <= x_end <= width,
                y <= cy <= y_end <= height,
                x_end == x + w || x_end == width,
                x_end <= x + w,
                y_end == y + h || y_end == height,
                y_end <= y + h,
                before.len() == self.pixels@.len(),
                len == before.len(),
                forall|o: int|
                    0 <= o < before.len() ==> #[trigger] self.pixels@[o] == if covers(
                        width as int,
                        x as int,
                        y as int,
                        w as int,
                        cy - y,
                        o,
                    ) {
                        channel(color, o % 3)
                    } else {
                        before[o]
                    },
            decreases y_end - cy,
        {
            let mut cx: usize = x;
            while cx < x_end
                invariant
                    self.wf(),
                    self.width == width,
                    self.height == height,
                    0 < width,
                    x <= cx <= x_end <= width,
                    y <= cy < y_end <= height,
                    before.len() == self.pixels@.len(),
                    len == before.len(),
                len == before.len(),
                    forall|o: int|
                        0 <= o < before.len() ==> #[trigger] self.pixels@[o] == if covers(
                            width as int,
                            x as int,
                            y as int,
                            w as int,
                            cy - y,
                            o,
                        ) || (pixel_y(width as int, o) == cy && x <= pixel_x(width as int, o)
                            < cx) {
                            channel(color, o % 3)
                        } else {
                            before[o]
                        },
                decreases x_end - cx,
            {
                proof {
                    lemma_cell_index(width as int, height as int, cx as int, cy as int);
                }
                let offset = (cx + cy * width) * 3;
                let ghost mid = self.pixels@;
                self.pixels.set(offset, color.r);
                self.pixels.set(offset + 1, color.g);
                self.pixels.set(offset + 2, color.b);
                proof {
                    assert forall|o: int| 0 <= o < before.len() implies #[trigger] self.pixels@[o]
                        == if covers(width as int, x as int, y as int, w as int, cy - y, o) || (
                    pixel_y(width as int, o) == cy && x <= pixel_x(width as int, o) < cx + 1) {
                        channel(color, o % 3)
                    } else {
                        before[o]
                    } by {
                        lemma_pixel_of_byte(width as int, cx as int, cy as int, o);
                        assert(mid[o] == mid[o]);
                    }
                }
                cx = cx + 1;
            }
            proof {
                assert forall|o: int| 0 <= o < before.len() implies #[trigger] self.pixels@[o]
                    == if covers(width as int, x as int, y as int, w as int, cy + 1 - y, o) {
                    channel(color, o % 3)
                } else {
                    before[o]
                } by {
                    lemma_fundamental_div_mod(o / 3, width as int);
                }
            }
            cy = cy + 1;
        }
        proof {
            assert forall|o: int| 0 <= o < before.len() implies covers(
                width as int,
                x as int,
                y as int,
                w as int,
                cy - y,
                o,
            ) == covers(width as int, x as int, y as int, w as int, h as int, o) by {
                if cy < y + h && pixel_y(width as int, o) >= cy {
                    lemma_fundamental_div_mod(o, 3);
                    lemma_fundamental_div_mod(o / 3, width as int);
                    assert(width * pixel_y(width as int, o) >= width * height) by (nonlinear_arith)
                        requires
                            pixel_y(width as int, o) >= height,
                            width > 0,
                    ;
                }
            }
            assert(self.pixels@ =~= fill_rect(
                before,
                width as int,
                x as int,
                y as int,
                w as int,
                h as int,
                color,
            ));
        }
    }
}

/// A rectangle fill never reaches past the buffer: the length stays
/// `width * height * 3`, and every byte whose pixel is outside the rectangle
/// keeps its value, whatever the rectangle's position and size.
pub proof fn lemma_fill_rect_stays_in_buffer(
    bytes: Seq<u8>,
    width: nat,
    height: nat,
    x: nat,
    y: nat,
    w: nat,
    h: nat,
    color: Color,
)
    requires
        bytes.len() == width * height * 3,
    ensures
        fill_rect(bytes, width as int, x as int, y as int, w as int, h as int, color).len()
            == width * height * 3,
        forall|o: int|
            0 <= o < bytes.len() && !covers(width as int, x as int, y as int, w as int, h as int, o)
                ==> #[trigger] fill_rect(
                bytes,
                width as int,
                x as int,
                y as int,
                w as int,
                h as int,
                color,
            )[o] == bytes[o],
{
}

} // verus!
