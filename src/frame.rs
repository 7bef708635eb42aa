use vstd::prelude::*;

verus! {

#[derive(Clone, Copy, Debug, PartialEq, Eq, Structural)]
pub enum FrameError {
    OutOfBounds,
}

/// A pixel buffer on which each logical pixel is drawn as a square of
/// `logical_scale` x `logical_scale` real pixels.
pub struct Frame {
    pub logical_width: usize,
    pub logical_height: usize,
    pub logical_scale: usize,
    /// Real pixels, row by row.
    pub buffer: Vec<u32>,
}

/// The real pixel `i` of a buffer `real_w` wide lies in the square of the
/// logical pixel `(x, y)`.
pub open spec fn in_square(i: int, real_w: int, scale: int, x: int, y: int) -> bool {
    y * scale <= i / real_w < (y + 1) * scale && x * scale <= i % real_w < (x + 1) * scale
}

impl Frame {
    pub open spec fn real_width(&self) -> int {
        self.logical_width * self.logical_scale
    }

    pub open spec fn real_height(&self) -> int {
        self.logical_height * self.logical_scale
    }

    /// A positive scale, and a buffer of the real size.
    pub open spec fn wf(&self) -> bool {
        &&& self.logical_scale >= 1
        &&& self.real_width() <= usize::MAX
        &&& self.real_height() <= usize::MAX
        &&& self.real_width() * self.real_height() <= usize::MAX
        &&& self.buffer@.len() == self.real_width() * self.real_height()
    }

    /// A black frame of scale 1.
    pub fn new(width: usize, height: usize) -> (r: Frame)
        requires
            width * height <= usize::MAX,
        ensures
            r.wf(),
            r.logical_width == width,
            r.logical_height == height,
            r.logical_scale == 1,
            r.buffer@ == Seq::new((width * height) as nat, |i: int| 0u32),
    {
        let n = width * height;
        let buffer = zeros(n);
        let r = Frame { logical_width: width, logical_height: height, logical_scale: 1, buffer };
        assert(r.real_width() == width && r.real_height() == height);
        r
    }

    /// A black frame whose logical pixels are `logical_scale` real pixels
    /// wide.
    pub fn new_with_scale(logical_width: usize, logical_height: usize, logical_scale: usize) -> (r:
        Frame)
        requires
            logical_scale >= 1,
            logical_width * logical_scale <= usize::MAX,
            logical_height * logical_scale <= usize::MAX,
            (logical_width * logical_scale) * (logical_height * logical_scale) <= usize::MAX,
        ensures
            r.wf(),
            r.logical_width == logical_width,
            r.logical_height == logical_height,
            r.logical_scale == logical_scale,
            r.buffer@ == Seq::new(r.real_width() as nat * r.real_height() as nat, |i: int| 0u32),
    {
        let width = logical_width * logical_scale;
        let height = logical_height * logical_scale;
        let buffer = zeros(width * height);
        Frame { logical_width, logical_height, buffer, logical_scale }
    }

    /// Width of the buffer in real pixels.
    pub fn width(&self) -> (r: usize)
        requires
            self.wf(),
        ensures
            r == self.real_width(),
    {
        self.logical_width * self.logical_scale
    }

    /// Height of the buffer in real pixels.
    pub fn height(&self) -> (r: usize)
        requires
            self.wf(),
        ensures
            r == self.real_height(),
    {
        self.logical_height * self.logical_scale
    }

    /// The logical pixel holding a real pixel.
    pub fn real_pos_to_logical(&self, x: usize, y: usize) -> (r: (usize, usize))
        requires
            self.logical_scale >= 1,
        ensures
            r.0 == x / self.logical_scale,
            r.1 == y / self.logical_scale,
    {
        (x / self.logical_scale, y / self.logical_scale)
    }

    /// Paints the square of logical pixel `(x, y)` with `color`; fails,
    /// and paints nothing, when the pixel is off the frame.
    pub fn draw_pixel(&mut self, x: usize, y: usize, color: u32) -> (r: Result<(), FrameError>)
        requires
            old(self).wf(),
        ensures
            final(self).wf(),
            final(self).logical_width == old(self).logical_width,
            final(self).logical_height == old(self).logical_height,
            final(self).logical_scale == old(self).logical_scale,
            r is Err <==> (x >= old(self).logical_width || y >= old(self).logical_height),
            r is Err ==> final(self).buffer@ == old(self).buffer@,
            r is Ok ==> forall|i: int|
                0 <= i < old(self).buffer@.len() ==> #[trigger] final(self).buffer@[i] == if in_square(
                    i,
                    old(self).real_width(),
                    old(self).logical_scale as int,
                    x as int,
                    y as int,
                ) {
                    color
                } else {
                    old(self).buffer@[i]
                },
    {
        if x >= self.logical_width || y >= self.logical_height {
            return Err(FrameError::OutOfBounds);
        }
        let s = self.logical_scale;
        let w = self.width();
        let hgt = self.height();
        let ghost old_buf = self.buffer@;
        proof {
            lemma_square_fits(x as int, y as int, self.logical_width as int, self.logical_height as int, s as int);
        }
        let row = y * s;
        let col = x * s;
        assert((x + 1) * s == col + s && (y + 1) * s == row + s) by (nonlinear_arith)
            requires
                row == y * s,
                col == x * s,
        ;
        let mut ro: usize = 0;
        while ro < s
            invariant
                self.wf(),
                self.logical_width == old(self).logical_width,
                self.logical_height == old(self).logical_height,
                self.logical_scale == s,
                w == self.real_width(),
                hgt == self.real_height(),
                x < self.logical_width,
                y < self.logical_height,
                row == y * s,
                col == x * s,
                (x + 1) * s == col + s,
                (y + 1) * s == row + s,
                row + s <= hgt,
                col + s <= w,
                ro <= s,
                old_buf.len() == self.buffer@.len(),
                forall|i: int|
                    0 <= i < old_buf.len() ==> #[trigger] self.buffer@[i] == if in_square(
                        i,
                        w as int,
                        s as int,
                        x as int,
                        y as int,
                    ) && i / (w as int) < row + ro {
                        color
                    } else {
                        old_buf[i]
                    },
            decreases s - ro,
        {
            let off_row = row + ro;
            let mut co: usize = 0;
            while co < s
                invariant
                    self.wf(),
                    self.logical_width == old(self).logical_width,
                    self.logical_height == old(self).logical_height,
                    self.logical_scale == s,
                    w == self.real_width(),
                    hgt == self.real_height(),
                    row == y * s,
                    col == x * s,
                    (x + 1) * s == col + s,
                    (y + 1) * s == row + s,
                    row + s <= hgt,
                    col + s <= w,
                    ro < s,
                    off_row == row + ro,
                    co <= s,
                    old_buf.len() == self.buffer@.len(),
                    forall|i: int|
                        0 <= i < old_buf.len() ==> #[trigger] self.buffer@[i] == if in_square(
                            i,
                            w as int,
                            s as int,
                            x as int,
                            y as int,
                        ) && (i / (w as int) < off_row || (i / (w as int) == off_row && i % (w as int) < col + co)) {
                            color
                        } else {
                            old_buf[i]
                        },
                decreases s - co,
            {
                let off_col = col + co;
                proof {
                    lemma_cell_index(off_row as int, off_col as int, w as int, hgt as int);
                }
                let index = off_row * w + off_col;
                self.buffer.set(index, color);
                proof {
                    assert forall|i: int| 0 <= i < old_buf.len() implies #[trigger] self.buffer@[i]
                        == if in_square(i, w as int, s as int, x as int, y as int) && (i / (w as int)
                        < off_row || (i / (w as int) == off_row && i % (w as int) < col + co + 1)) {
                        color
                    } else {
                        old_buf[i]
                    } by {
                        if i != index {
                            lemma_distinct_pos(i, index as int, w as int);
                        }
                    }
                }
                co = co + 1;
            }
            ro = ro + 1;
        }
        Ok(())
    }
}

fn zeros(n: usize) -> (r: Vec<u32>)
    ensures
        r@ == Seq::new(n as nat, |i: int| 0u32),
{
    let mut v: Vec<u32> = Vec::new();
    let mut i: usize = 0;
    while i < n
        invariant
            i <= n,
            v@ =~= Seq::new(i as nat, |k: int| 0u32),
        decreases n - i,
    {
        v.push(0);
        i = i + 1;
    }
    v
}

proof fn lemma_square_fits(x: int, y: int, lw: int, lh: int, s: int)
    requires
        0 <= x < lw,
        0 <= y < lh,
        s >= 1,
    ensures
        x * s + s <= lw * s,
        y * s + s <= lh * s,
        0 <= x * s,
        0 <= y * s,
{
    assert(x * s + s <= lw * s) by (nonlinear_arith)
        requires
            x < lw,
            s >= 1,
    ;
    assert(y * s + s <= lh * s) by (nonlinear_arith)
        requires
            y < lh,
            s >= 1,
    ;
    assert(0 <= x * s && 0 <= y * s) by (nonlinear_arith)
        requires
            x >= 0,
            y >= 0,
            s >= 1,
    ;
}

proof fn lemma_cell_index(r: int, c: int, w: int, h: int)
    requires
        0 <= r < h,
        0 <= c < w,
    ensures
        0 <= r * w + c < w * h,
        (r * w + c) / w == r,
        (r * w + c) % w == c,
{
    assert(0 <= r * w + c < w * h && (r * w + c) / w == r && (r * w + c) % w == c)
        by (nonlinear_arith)
        requires
            0 <= r < h,
            0 <= c < w,
    ;
}

proof fn lemma_distinct_pos(i: int, j: int, w: int)
    requires
        i != j,
        w > 0,
        0 <= i,
        0 <= j,
    ensures
        i / w != j / w || i % w != j % w,
{
    assert(i / w != j / w || i % w != j % w) by (nonlinear_arith)
        requires
            i != j,
            w > 0,
            0 <= i,
            0 <= j,
    ;
}

} // verus!
