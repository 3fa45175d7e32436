use vstd::prelude::*;
use crate::geometry::Pixel;
use crate::engine::Effect;

verus! {

/// An RGB colour.
pub type Color = (u8, u8, u8);

/// The palette of the editor: the keys that paint, and their colours.
pub open spec fn palette_spec(c: char) -> Option<Color> {
    if c == 'a' {
        Some((255u8, 0u8, 0u8))
    } else if c == 'z' {
        Some((0u8, 255u8, 0u8))
    } else if c == 'e' {
        Some((0u8, 0u8, 255u8))
    } else {
        None
    }
}

/// The colour a typed key paints with, if any.
pub fn palette(c: char) -> (r: Option<Color>)
    ensures
        r == palette_spec(c),
{
    if c == 'a' {
        Some((255, 0, 0))
    } else if c == 'z' {
        Some((0, 255, 0))
    } else if c == 'e' {
        Some((0, 0, 255))
    } else {
        None
    }
}

/// A `width` by `height` grid of colours, stored row by row.
pub struct Canvas {
    pub width: usize,
    pub height: usize,
    pub pixels: Vec<Color>,
}

/// Index of pixel `p` in the row-by-row storage of a canvas `w` wide.
pub open spec fn index_of(w: usize, p: Pixel) -> int {
    p.1 * w + p.0
}

/// Whether some pixel of `ps` on the `w` by `h` canvas is stored at `i`.
pub open spec fn hits(ps: Seq<Pixel>, w: usize, h: usize, i: int) -> bool {
    exists|k: int| 0 <= k < ps.len() && ps[k].0 < w && ps[k].1 < h && #[trigger] index_of(w, ps[k]) == i
}

proof fn lemma_index_in_range(w: usize, h: usize, p: Pixel)
    requires
        p.0 < w,
        p.1 < h,
    ensures
        0 <= index_of(w, p) < w * h,
{
    assert(0 <= p.1 * w + p.0 < w * h) by (nonlinear_arith)
        requires
            p.0 < w,
            p.1 < h,
    ;
}

impl Canvas {
    /// Storage holds exactly one colour per pixel.
    pub open spec fn wf(&self) -> bool {
        self.pixels@.len() == self.width * self.height
    }

    /// A black canvas.
    pub fn new(width: usize, height: usize) -> (r: Canvas)
        requires
            width * height <= usize::MAX,
        ensures
            r.wf(),
            r.width == width,
            r.height == height,
            forall|i: int| 0 <= i < r.pixels@.len() ==> r.pixels@[i] == (0u8, 0u8, 0u8),
    {
        let n: usize = width * height;
        let mut pixels: Vec<Color> = Vec::new();
        while pixels.len() < n
            invariant
                pixels@.len() <= n,
                forall|i: int| 0 <= i < pixels@.len() ==> pixels@[i] == (0u8, 0u8, 0u8),
            decreases n - pixels@.len(),
        {
            pixels.push((0, 0, 0));
        }
        Canvas { width, height, pixels }
    }

    /// The canvas size `(width, height)`.
    pub fn size(&self) -> (r: (usize, usize))
        ensures
            r == (self.width, self.height),
    {
        (self.width, self.height)
    }

    /// Sets the colour of pixel `(x, y)`.
    pub fn set_pixel_color(&mut self, x: usize, y: usize, color: Color)
        requires
            old(self).wf(),
            x < old(self).width,
            y < old(self).height,
        ensures
            final(self).wf(),
            final(self).width == old(self).width,
            final(self).height == old(self).height,
            final(self).pixels@ == old(self).pixels@.update(index_of(old(self).width, (x, y)), color),
    {
        let n = self.pixels.len();
        proof {
            lemma_index_in_range(self.width, self.height, (x, y));
            assert(y * self.width <= y * self.width + x);
        }
        let i = y * self.width + x;
        self.pixels.set(i, color);
    }

    /// Paints every pixel of `ps` that lies on the canvas with `color`;
    /// the others are left as they were.
    pub fn paint_all(&mut self, ps: &Vec<Pixel>, color: Color)
        requires
            old(self).wf(),
        ensures
            final(self).wf(),
            final(self).width == old(self).width,
            final(self).height == old(self).height,
            forall|i: int|
                0 <= i < final(self).pixels@.len() ==> #[trigger] final(self).pixels@[i] == (if hits(
                    ps@,
                    old(self).width,
                    old(self).height,
                    i,
                ) {
                    color
                } else {
                    old(self).pixels@[i]
                }),
    {
        let ghost start = self.pixels@;
        let w = self.width;
        let h = self.height;
        let mut k: usize = 0;
        while k < ps.len()
            invariant
                self.wf(),
                self.width == w,
                self.height == h,
                k <= ps@.len(),
                self.pixels@.len() == start.len(),
                forall|i: int|
                    0 <= i < self.pixels@.len() ==> #[trigger] self.pixels@[i] == (if hits(
                        ps@.subrange(0, k as int),
                        w,
                        h,
                        i,
                    ) {
                        color
                    } else {
                        start[i]
                    }),
            decreases ps@.len() - k,
        {
            let p = ps[k];
            let ghost pre = ps@.subrange(0, k as int);
            let ghost post = ps@.subrange(0, k + 1);
            let ghost prev = self.pixels@;
            if p.0 < w && p.1 < h {
                proof { lemma_index_in_range(w, h, p); }
                self.set_pixel_color(p.0, p.1, color);
            }
            proof {
                assert forall|i: int| 0 <= i < self.pixels@.len() implies #[trigger] self.pixels@[i]
                    == (if hits(post, w, h, i) {
                    color
                } else {
                    start[i]
                }) by {
                    assert(self.pixels@[i] == (if p.0 < w && p.1 < h && index_of(w, p) == i {
                        color
                    } else {
                        prev[i]
                    }));
                    if hits(pre, w, h, i) {
                        let j = choose|j: int|
                            0 <= j < pre.len() && pre[j].0 < w && pre[j].1 < h
                                && #[trigger] index_of(w, pre[j]) == i;
                        assert(post[j] == pre[j]);
                    }
                    if hits(post, w, h, i) && !hits(pre, w, h, i) {
                        let j = choose|j: int|
                            0 <= j < post.len() && post[j].0 < w && post[j].1 < h
                                && #[trigger] index_of(w, post[j]) == i;
                        if j < k {
                            assert(pre[j] == post[j]);
                        }
                    }
                    if p.0 < w && p.1 < h && index_of(w, p) == i {
                        assert(post[k as int] == p);
                    }
                }
            }
            k = k + 1;
        }
        assert(ps@.subrange(0, ps@.len() as int) =~= ps@);
    }

    /// Applies an effect of the engine: `Fill` paints white; `Edit` paints
    /// with the palette colour of the typed key, if it has one. Other
    /// effects concern the view, not the canvas.
    pub fn apply(&mut self, e: &Effect)
        requires
            old(self).wf(),
        ensures
            final(self).wf(),
            final(self).width == old(self).width,
            final(self).height == old(self).height,
            forall|i: int|
                0 <= i < final(self).pixels@.len() ==> #[trigger] final(self).pixels@[i] == match e {
                    Effect::Fill(ps) => if hits(ps@, old(self).width, old(self).height, i) {
                        (255u8, 255u8, 255u8)
                    } else {
                        old(self).pixels@[i]
                    },
                    Effect::Edit(c, ps) => match palette_spec(*c) {
                        Some(col) => if hits(ps@, old(self).width, old(self).height, i) {
                            col
                        } else {
                            old(self).pixels@[i]
                        },
                        None => old(self).pixels@[i],
                    },
                    _ => old(self).pixels@[i],
                },
    {
        match e {
            Effect::Fill(ps) => self.paint_all(ps, (255, 255, 255)),
            Effect::Edit(c, ps) => match palette(*c) {
                Some(col) => self.paint_all(ps, col),
                None => {},
            },
            _ => {},
        }
    }
}

} // verus!
