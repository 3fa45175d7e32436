use vstd::prelude::*;

verus! {

/// A pixel coordinate `(x, y)`.
pub type Pixel = (usize, usize);

/// Largest width or height of a rectangle that the ring test accepts; keeps
/// its squared distances inside `i128`.
pub const MAX_EXTENT: u64 = 0x2000_0000_0000_0000;

/// `p` comes before `q`, column by column, then row by row.
pub open spec fn lex_lt(p: Pixel, q: Pixel) -> bool {
    p.0 < q.0 || (p.0 == q.0 && p.1 < q.1)
}

/// Shape rule used to turn a visual rectangle into pixels.
#[derive(Clone, Copy, Debug, PartialEq, Eq, Structural)]
pub enum VisualType {
    Square,
    Circle,
}

/// `p` lies in the closed rectangle spanned by `a` (top-left) and `b`
/// (bottom-right).
pub open spec fn in_rect(a: Pixel, b: Pixel, p: Pixel) -> bool {
    a.0 <= p.0 <= b.0 && a.1 <= p.1 <= b.1
}

/// Centre of the rectangle, by integer halving.
pub open spec fn centre(a: Pixel, b: Pixel) -> (int, int) {
    ((a.0 + b.0) / 2, (a.1 + b.1) / 2)
}

/// Squared Euclidean distance from `p` to the rectangle's centre.
pub open spec fn dist2(a: Pixel, b: Pixel, p: Pixel) -> int {
    let m = centre(a, b);
    (p.0 - m.0) * (p.0 - m.0) + (p.1 - m.1) * (p.1 - m.1)
}

/// The ring test `|d² - r²| <= 2` with `r = (x2 - x1) / 2` taken as a real
/// number, scaled by four so that it stays in the integers:
/// `|4 d² - (x2 - x1)²| <= 8`.
pub open spec fn on_ring(a: Pixel, b: Pixel, p: Pixel) -> bool {
    let w = b.0 - a.0;
    -8 <= 4 * dist2(a, b, p) - w * w <= 8
}

/// A one-pixel rectangle covers exactly that pixel, under either shape: for
/// the circle the radius is zero and the centre's distance is zero too.
pub proof fn lemma_single_point_region(t: VisualType, a: Pixel)
    ensures
        forall|p: Pixel| #[trigger] t.covers(a, a, p) <==> p == a,
{
    assert(centre(a, a) == (a.0 as int, a.1 as int));
    assert(dist2(a, a, a) == 0);
}

/// Whether `p` is in `v`.
fn has_pixel(v: &Vec<Pixel>, p: Pixel) -> (r: bool)
    ensures
        r == v@.contains(p),
{
    let mut i: usize = 0;
    while i < v.len()
        invariant
            i <= v@.len(),
            forall|j: int| 0 <= j < i ==> v@[j] != p,
        decreases v@.len() - i,
    {
        let q = v[i];
        if q.0 == p.0 && q.1 == p.1 {
            assert(v@[i as int] == p);
            return true;
        }
        i = i + 1;
    }
    false
}

impl VisualType {
    /// The rectangle is small enough for this shape's arithmetic: any size
    /// for `Square`, extents up to `MAX_EXTENT` for `Circle`.
    pub open spec fn fits(self, a: Pixel, b: Pixel) -> bool {
        self == VisualType::Circle ==> (b.0 - a.0 <= MAX_EXTENT && b.1 - a.1 <= MAX_EXTENT)
    }

    /// Whether pixel `p` belongs to the region of this shape over the
    /// rectangle `a`-`b`.
    pub open spec fn covers(self, a: Pixel, b: Pixel, p: Pixel) -> bool {
        in_rect(a, b, p) && match self {
            VisualType::Square => true,
            VisualType::Circle => on_ring(a, b, p),
        }
    }

    /// Executable form of the per-pixel test, for pixels of the rectangle.
    fn pixel_in(&self, a: Pixel, b: Pixel, p: Pixel) -> (r: bool)
        requires
            in_rect(a, b, p),
            self.fits(a, b),
        ensures
            r == self.covers(a, b, p),
    {
        match self {
            VisualType::Square => true,
            VisualType::Circle => {
                let mx: i128 = ((a.0 as i128) + (b.0 as i128)) / 2;
                let my: i128 = ((a.1 as i128) + (b.1 as i128)) / 2;
                let dx: i128 = mx - (p.0 as i128);
                let dy: i128 = my - (p.1 as i128);
                let w: i128 = (b.0 as i128) - (a.0 as i128);
                assert(0 <= dx * dx <= 0x400_0000_0000_0000_0000_0000_0000_0000) by (nonlinear_arith)
                    requires -0x2000_0000_0000_0000 <= dx <= 0x2000_0000_0000_0000;
                assert(0 <= dy * dy <= 0x400_0000_0000_0000_0000_0000_0000_0000) by (nonlinear_arith)
                    requires -0x2000_0000_0000_0000 <= dy <= 0x2000_0000_0000_0000;
                assert(0 <= w * w <= 0x400_0000_0000_0000_0000_0000_0000_0000) by (nonlinear_arith)
                    requires 0 <= w <= 0x2000_0000_0000_0000;
                let diff: i128 = 4 * (dx * dx + dy * dy) - w * w;
                assert((p.0 - mx) * (p.0 - mx) == dx * dx) by (nonlinear_arith)
                    requires dx == mx - p.0;
                assert((p.1 - my) * (p.1 - my) == dy * dy) by (nonlinear_arith)
                    requires dy == my - p.1;
                -8 <= diff && diff <= 8
            },
        }
    }

    /// Adds to `set` every pixel of the rectangle `a`-`b` that this shape
    /// covers: the whole rectangle for `Square`, a thin ring round the centre
    /// for `Circle`. The corners are normalised (`a` is top-left). The old
    /// elements stay in front, and no pixel is added twice; one already
    /// present is left as it is.
    pub fn select_pixels(&self, set: &mut Vec<Pixel>, a: Pixel, b: Pixel)
        requires
            a.0 <= b.0,
            a.1 <= b.1,
            self.fits(a, b),
        ensures
            forall|p: Pixel|
                #[trigger] final(set)@.contains(p) <==> (old(set)@.contains(p) || self.covers(
                    a,
                    b,
                    p,
                )),
            final(set)@.len() >= old(set)@.len(),
            final(set)@.subrange(0, old(set)@.len() as int) == old(set)@,
            final(set)@.subrange(old(set)@.len() as int, final(set)@.len() as int).no_duplicates(),
            forall|i: int|
                old(set)@.len() <= i < final(set)@.len() ==> !old(set)@.contains(
                    #[trigger] final(set)@[i],
                ),
    {
        let ghost start = set@;
        let ghost n0 = start.len() as int;
        let mut x: usize = a.0;
        let mut xdone: bool = false;
        while !xdone
            invariant
                a.0 <= x <= b.0,
                a.1 <= b.1,
                xdone ==> x == b.0,
                n0 == start.len(),
                self.fits(a, b),
                set@.len() >= n0,
                set@.subrange(0, n0) == start,
                forall|p: Pixel|
                    #[trigger] set@.contains(p) <==> (start.contains(p) || (self.covers(a, b, p)
                        && (p.0 < x || (xdone && p.0 == x)))),
                forall|i: int|
                    n0 <= i < set@.len() ==> #[trigger] set@[i].0 < x || (xdone && set@[i].0 == x),
                forall|i: int, j: int|
                    n0 <= i < j < set@.len() ==> lex_lt(#[trigger] set@[i], #[trigger] set@[j]),
                forall|i: int| n0 <= i < set@.len() ==> !start.contains(#[trigger] set@[i]),
            decreases b.0 - x + (if xdone { 0int } else { 1int }),
        {
            let mut y: usize = a.1;
            let mut ydone: bool = false;
            while !ydone
                invariant
                    a.0 <= x <= b.0,
                    a.1 <= y <= b.1,
                    ydone ==> y == b.1,
                    n0 == start.len(),
                    !xdone,
                    self.fits(a, b),
                    set@.len() >= n0,
                    set@.subrange(0, n0) == start,
                    forall|p: Pixel|
                        #[trigger] set@.contains(p) <==> (start.contains(p) || (self.covers(
                            a,
                            b,
                            p,
                        ) && (p.0 < x || (p.0 == x && (p.1 < y || (ydone && p.1 == y)))))),
                    forall|i: int|
                        n0 <= i < set@.len() ==> #[trigger] set@[i].0 < x || (set@[i].0 == x && (
                        set@[i].1 < y || (ydone && set@[i].1 == y))),
                    forall|i: int, j: int|
                        n0 <= i < j < set@.len() ==> lex_lt(#[trigger] set@[i], #[trigger] set@[j]),
                    forall|i: int| n0 <= i < set@.len() ==> !start.contains(#[trigger] set@[i]),
                decreases b.1 - y + (if ydone { 0int } else { 1int }),
            {
                if self.pixel_in(a, b, (x, y)) && !has_pixel(set, (x, y)) {
                    let ghost before = set@;
                    set.push((x, y));
                    proof {
                        assert(set@ == before.push((x, y)));
                        assert(set@.subrange(0, n0) =~= before.subrange(0, n0));
                        assert forall|p: Pixel| #[trigger]
                            set@.contains(p) <==> (before.contains(p) || p == (x, y)) by {
                            if set@.contains(p) {
                                let i = choose|i: int| 0 <= i < set@.len() && set@[i] == p;
                                if i < before.len() {
                                    assert(before[i] == p);
                                }
                            }
                            if before.contains(p) {
                                let i = choose|i: int| 0 <= i < before.len() && before[i] == p;
                                assert(set@[i] == p);
                            }
                            if p == (x, y) {
                                assert(set@[before.len() as int] == p);
                            }
                        }
                        assert forall|i: int, j: int|
                            n0 <= i < j < set@.len() implies lex_lt(
                            #[trigger] set@[i],
                            #[trigger] set@[j],
                        ) by {
                            if j < before.len() {
                                assert(set@[i] == before[i]);
                                assert(set@[j] == before[j]);
                            } else {
                                assert(set@[i] == before[i]);
                            }
                        }
                        assert forall|i: int| n0 <= i < set@.len() implies #[trigger] set@[i].0
                            < x || (set@[i].0 == x && (set@[i].1 < y || (true && set@[i].1
                            == y))) by {
                            if i < before.len() {
                                assert(set@[i] == before[i]);
                            }
                        }
                        assert forall|i: int| n0 <= i < set@.len() implies !start.contains(
                            #[trigger] set@[i],
                        ) by {
                            if i < before.len() {
                                assert(set@[i] == before[i]);
                            } else {
                                if start.contains((x, y)) {
                                    let j = choose|j: int| 0 <= j < start.len() && start[j] == (x, y);
                                    assert(before[j] == start[j]);
                                    assert(before.subrange(0, n0)[j] == start[j]);
                                }
                            }
                        }
                    }
                }
                if y == b.1 {
                    ydone = true;
                } else {
                    y = y + 1;
                }
            }
            let ghost x0 = x;
            if x == b.0 {
                xdone = true;
            } else {
                x = x + 1;
            }
            proof {
                assert forall|p: Pixel| #[trigger] set@.contains(p) <==> (start.contains(p) || (
                    self.covers(a, b, p) && (p.0 < x || (xdone && p.0 == x)))) by {
                    if self.covers(a, b, p) {
                        assert(in_rect(a, b, p));
                    }
                }
            }
        }
        proof {
            assert forall|p: Pixel| #[trigger] set@.contains(p) <==> (start.contains(p)
                || self.covers(a, b, p)) by {
                if self.covers(a, b, p) {
                    assert(in_rect(a, b, p));
                }
            }
        }
        proof {
            let nw = set@.subrange(n0, set@.len() as int);
            assert forall|i: int, j: int| 0 <= i < nw.len() && 0 <= j < nw.len() && i != j implies nw[i]
                != nw[j] by {
                if i < j {
                    assert(lex_lt(set@[n0 + i], set@[n0 + j]));
                } else {
                    assert(lex_lt(set@[n0 + j], set@[n0 + i]));
                }
            }
        }
    }

    /// The region of this shape over the rectangle `a`-`b`, as a fresh list.
    pub fn selection(&self, a: Pixel, b: Pixel) -> (r: Vec<Pixel>)
        requires
            a.0 <= b.0,
            a.1 <= b.1,
            self.fits(a, b),
        ensures
            forall|p: Pixel| #[trigger] r@.contains(p) <==> self.covers(a, b, p),
            r@.no_duplicates(),
    {
        let mut r: Vec<Pixel> = Vec::new();
        self.select_pixels(&mut r, a, b);
        assert(r@.subrange(0, r@.len() as int) =~= r@);
        r
    }
}

} // verus!
