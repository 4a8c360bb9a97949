//! The 1-bit pixel buffer that mirrors what the e-ink panel shows.
use vstd::prelude::*;

verus! {

/// Whether pixel `pos` (0 = leftmost, 7 = rightmost) of a packed byte is black.
pub open spec fn bit_at(b: u8, pos: u8) -> bool {
    (b >> ((7 - pos) as u8)) & 1u8 == 1u8
}

/// The byte `b` with pixel `pos` set to black (`true`) or white (`false`).
pub open spec fn with_bit(b: u8, pos: u8, black: bool) -> u8 {
    if black {
        b | (1u8 << ((7 - pos) as u8))
    } else {
        b & !(1u8 << ((7 - pos) as u8))
    }
}

/// Writing one pixel of a byte leaves the other seven pixels alone.
pub proof fn lemma_with_bit(b: u8, pos: u8, other: u8, black: bool)
    requires
        pos < 8,
        other < 8,
    ensures
        bit_at(with_bit(b, pos, black), other) == if pos == other { black } else { bit_at(b, other) },
{
    if black {
        assert(bit_at(b | (1u8 << ((7 - pos) as u8)), other) == if pos == other { true } else { bit_at(b, other) }) by (bit_vector)
            requires pos < 8, other < 8;
    } else {
        assert(bit_at(b & !(1u8 << ((7 - pos) as u8)), other) == if pos == other { false } else { bit_at(b, other) }) by (bit_vector)
            requires pos < 8, other < 8;
    }
}

/// The zero byte is eight white pixels.
pub proof fn lemma_zero_byte_white(pos: u8)
    requires
        pos < 8,
    ensures
        !bit_at(0u8, pos),
{
    assert(!bit_at(0u8, pos)) by (bit_vector)
        requires pos < 8;
}

/// A 1-bit pixel buffer representing what the e-ink display shows.
///
/// Pixels are packed 8 per byte, row-major. The leftmost pixel of a group of
/// eight is the most significant bit. A set bit is black, a clear bit white.
#[derive(Debug, Clone)]
pub struct PixelBuffer {
    pub width: u32,
    pub height: u32,
    /// Raw pixel data: ceil(width * height / 8) bytes.
    pub pixels: Vec<u8>,
}

/// Number of bytes needed for `n` packed pixels.
pub open spec fn packed_len(n: int) -> int {
    (n + 7) / 8
}

impl PixelBuffer {
    /// The buffer's dimensions fit in `u32` arithmetic and its byte vector
    /// has exactly the length that the dimensions call for.
    pub open spec fn wf(&self) -> bool {
        &&& self.width * self.height <= u32::MAX
        &&& self.pixels@.len() == packed_len(self.width * self.height)
    }

    /// Whether (x, y) lies on the buffer.
    pub open spec fn in_bounds(&self, x: int, y: int) -> bool {
        0 <= x < self.width && 0 <= y < self.height
    }

    /// Row-major index of pixel (x, y).
    pub open spec fn index_of(&self, x: int, y: int) -> int {
        y * self.width + x
    }

    /// Whether pixel (x, y) is black.
    pub open spec fn black_at(&self, x: int, y: int) -> bool {
        let i = self.index_of(x, y);
        bit_at(self.pixels@[i / 8], (i % 8) as u8)
    }

    /// Same dimensions and same colour at every on-buffer pixel.
    pub open spec fn same_picture(&self, other: &PixelBuffer) -> bool {
        &&& self.width == other.width
        &&& self.height == other.height
        &&& forall|x: int, y: int| self.in_bounds(x, y) ==> self.black_at(x, y) == other.black_at(x, y)
    }

    /// Create a new all-white (zero) pixel buffer.
    pub fn new(width: u32, height: u32) -> (buf: Self)
        requires
            width * height <= u32::MAX,
        ensures
            buf.wf(),
            buf.width == width,
            buf.height == height,
            forall|i: int| 0 <= i < buf.pixels@.len() ==> buf.pixels@[i] == 0u8,
            forall|x: int, y: int| buf.in_bounds(x, y) ==> !buf.black_at(x, y),
    {
        let n: u32 = width * height;
        let byte_count: usize = (n / 8 + if n % 8 == 0 { 0 } else { 1 }) as usize;
        let pixels: Vec<u8> = vec![0u8; byte_count];
        let buf = PixelBuffer { width, height, pixels };
        proof {
            assert forall|x: int, y: int| buf.in_bounds(x, y) implies !buf.black_at(x, y) by {
                let i = buf.index_of(x, y);
                lemma_index_in_range(width as int, height as int, x, y);
                lemma_zero_byte_white((i % 8) as u8);
            }
        }
        buf
    }

    /// Whether pixel (x, y) is black; off-buffer pixels read as white.
    pub fn get_pixel(&self, x: u32, y: u32) -> (black: bool)
        requires
            self.wf(),
        ensures
            black == (self.in_bounds(x as int, y as int) && self.black_at(x as int, y as int)),
    {
        if x >= self.width || y >= self.height {
            return false;
        }
        proof {
            lemma_index_in_range(self.width as int, self.height as int, x as int, y as int);
        }
        let idx: u32 = y * self.width + x;
        let byte: u8 = self.pixels[(idx / 8) as usize];
        let pos: u8 = (idx % 8) as u8;
        (byte >> (7 - pos)) & 1 == 1
    }

    /// Set a single pixel. `true` = black, `false` = white. Off-buffer
    /// coordinates leave the buffer unchanged.
    pub fn set_pixel(&mut self, x: u32, y: u32, black: bool)
        requires
            old(self).wf(),
        ensures
            final(self).wf(),
            final(self).width == old(self).width,
            final(self).height == old(self).height,
            !old(self).in_bounds(x as int, y as int) ==> *final(self) == *old(self),
            old(self).in_bounds(x as int, y as int) ==> {
                let i = old(self).index_of(x as int, y as int);
                final(self).pixels@ == old(self).pixels@.update(
                    i / 8,
                    with_bit(old(self).pixels@[i / 8], (i % 8) as u8, black),
                )
            },
            forall|px: int, py: int| #[trigger] final(self).in_bounds(px, py) ==> final(self).black_at(px, py) == if px == x && py == y {
                black
            } else {
                old(self).black_at(px, py)
            },
    {
        if x >= self.width || y >= self.height {
            return;
        }
        proof {
            lemma_index_in_range(self.width as int, self.height as int, x as int, y as int);
        }
        let ghost pre = *self;
        let idx: u32 = y * self.width + x;
        let byte: usize = (idx / 8) as usize;
        let pos: u8 = (idx % 8) as u8;
        let old_byte: u8 = self.pixels[byte];
        let new_byte: u8 = if black {
            old_byte | (1u8 << (7 - pos))
        } else {
            old_byte & !(1u8 << (7 - pos))
        };
        self.pixels.set(byte, new_byte);
        proof {
            assert forall|px: int, py: int| #[trigger] self.in_bounds(px, py) implies self.black_at(px, py) == if px == x && py == y {
                black
            } else {
                pre.black_at(px, py)
            } by {
                lemma_index_in_range(pre.width as int, pre.height as int, px, py);
                let j = pre.index_of(px, py);
                lemma_index_distinct(pre.width as int, x as int, y as int, px, py);
                if j / 8 == idx / 8 {
                    lemma_with_bit(old_byte, pos, (j % 8) as u8, black);
                }
            }
        }
    }
}


/// Whether (px, py) lies in the `w`×`h` box whose top-left corner is (x, y).
pub open spec fn in_box(px: int, py: int, x: int, y: int, w: int, h: int) -> bool {
    x <= px < x + w && y <= py < y + h
}

impl PixelBuffer {
    /// `self` is `before` with the same dimensions, still well formed.
    pub open spec fn same_frame(&self, before: &PixelBuffer) -> bool {
        &&& self.wf()
        &&& self.width == before.width
        &&& self.height == before.height
    }

    /// `self` is `before` with every on-buffer pixel of the box set to
    /// `black`, and no other pixel changed.
    pub open spec fn box_painted(&self, before: &PixelBuffer, x: int, y: int, w: int, h: int, black: bool) -> bool {
        &&& self.same_frame(before)
        &&& forall|px: int, py: int| #[trigger] self.in_bounds(px, py) ==> self.black_at(px, py) == if in_box(px, py, x, y, w, h) {
            black
        } else {
            before.black_at(px, py)
        }
    }

    /// `self` differs from `before` only inside the box.
    pub open spec fn drawn_within(&self, before: &PixelBuffer, x: int, y: int, w: int, h: int) -> bool {
        &&& self.same_frame(before)
        &&& forall|px: int, py: int| #[trigger] self.in_bounds(px, py) && !in_box(px, py, x, y, w, h) ==> self.black_at(px, py) == before.black_at(px, py)
    }

    /// Every pixel black in `before` is black in `self`: only ink was added.
    pub open spec fn darkens(&self, before: &PixelBuffer) -> bool {
        forall|px: int, py: int| #[trigger] self.in_bounds(px, py) && before.black_at(px, py) ==> self.black_at(px, py)
    }
}

/// A buffer has all the ink it has.
pub proof fn lemma_darkens_refl(a: &PixelBuffer)
    ensures
        a.darkens(a),
{
}

/// Adding ink twice adds ink.
pub proof fn lemma_darkens_trans(a: &PixelBuffer, b: &PixelBuffer, c: &PixelBuffer)
    requires
        b.same_frame(a),
        c.same_frame(b),
        b.darkens(a),
        c.darkens(b),
    ensures
        c.same_frame(a),
        c.darkens(a),
{
    assert forall|px: int, py: int| #[trigger] c.in_bounds(px, py) && a.black_at(px, py) implies c.black_at(px, py) by {
        assert(b.in_bounds(px, py));
    }
}

/// Painting a box black only adds ink.
pub proof fn lemma_paint_darkens(a: &PixelBuffer, b: &PixelBuffer, x: int, y: int, w: int, h: int)
    requires
        b.box_painted(a, x, y, w, h, true),
    ensures
        b.darkens(a),
{
    assert forall|px: int, py: int| #[trigger] b.in_bounds(px, py) && a.black_at(px, py) implies b.black_at(px, py) by {
    }
}

/// Drawing inside a box is drawing inside any box that contains it.
pub proof fn lemma_within_widen(a: &PixelBuffer, b: &PixelBuffer, x1: int, y1: int, w1: int, h1: int, x: int, y: int, w: int, h: int)
    requires
        b.drawn_within(a, x1, y1, w1, h1),
        w1 <= 0 || h1 <= 0 || (x <= x1 && x1 + w1 <= x + w && y <= y1 && y1 + h1 <= y + h),
    ensures
        b.drawn_within(a, x, y, w, h),
{
}

/// One more drawing step inside a zone keeps everything inside the zone.
pub proof fn lemma_within_step(
    a: &PixelBuffer, b: &PixelBuffer, c: &PixelBuffer,
    zx: int, zy: int, zw: int, zh: int,
    x: int, y: int, w: int, h: int,
)
    requires
        b.drawn_within(a, zx, zy, zw, zh),
        c.drawn_within(b, x, y, w, h),
        w <= 0 || h <= 0 || (zx <= x && x + w <= zx + zw && zy <= y && y + h <= zy + zh),
    ensures
        c.drawn_within(a, zx, zy, zw, zh),
{
    assert forall|px: int, py: int| #[trigger] c.in_bounds(px, py) && !in_box(px, py, zx, zy, zw, zh) implies c.black_at(px, py) == a.black_at(px, py) by {
        assert(b.in_bounds(px, py));
    }
}

/// Drawing inside a box and then inside a box that contains it stays inside
/// the larger box.
pub proof fn lemma_within_trans(
    a: &PixelBuffer, b: &PixelBuffer, c: &PixelBuffer,
    x1: int, y1: int, w1: int, h1: int,
    x2: int, y2: int, w2: int, h2: int,
    x: int, y: int, w: int, h: int,
)
    requires
        b.drawn_within(a, x1, y1, w1, h1),
        c.drawn_within(b, x2, y2, w2, h2),
        w1 <= 0 || h1 <= 0 || (x <= x1 && x1 + w1 <= x + w && y <= y1 && y1 + h1 <= y + h),
        w2 <= 0 || h2 <= 0 || (x <= x2 && x2 + w2 <= x + w && y <= y2 && y2 + h2 <= y + h),
    ensures
        c.drawn_within(a, x, y, w, h),
{
    assert forall|px: int, py: int| #[trigger] c.in_bounds(px, py) && !in_box(px, py, x, y, w, h) implies c.black_at(px, py) == a.black_at(px, py) by {
        assert(b.in_bounds(px, py));
    }
}

/// A pixel on the buffer has an index inside the packed bytes.
pub proof fn lemma_index_in_range(w: int, h: int, x: int, y: int)
    requires
        0 <= x < w,
        0 <= y < h,
    ensures
        0 <= y * w + x < w * h,
        0 <= (y * w + x) / 8 < packed_len(w * h),
{
    assert(y * w + x < w * h) by (nonlinear_arith)
        requires 0 <= x < w, 0 <= y < h;
    assert(0 <= y * w) by (nonlinear_arith)
        requires 0 <= y, 0 <= w;
}

/// Distinct on-buffer pixels have distinct indices.
pub proof fn lemma_index_distinct(w: int, x: int, y: int, px: int, py: int)
    requires
        0 <= x < w,
        0 <= px < w,
        0 <= y,
        0 <= py,
    ensures
        (y * w + x == py * w + px) <==> (x == px && y == py),
{
    if y * w + x == py * w + px {
        if y < py {
            assert(y * w + x < py * w + px) by (nonlinear_arith)
                requires 0 <= x < w, 0 <= px, y < py, 0 <= y;
        } else if py < y {
            assert(py * w + px < y * w + x) by (nonlinear_arith)
                requires 0 <= px < w, 0 <= x, py < y, 0 <= py;
        }
    }
}

} // verus!
