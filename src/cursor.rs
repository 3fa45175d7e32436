use vstd::prelude::*;
use vstd::arithmetic::div_mod::{
    lemma_small_mod,
    lemma_mod_self_0,
    lemma_mod_add_multiples_vanish,
    lemma_mod_multiples_vanish,
    lemma_add_mod_noop_right,
    lemma_mod_bound,
};
use crate::geometry::Pixel;

verus! {

/// A unit cursor motion on the canvas.
#[derive(Clone, Copy, Debug, PartialEq, Eq, Structural)]
pub enum Motion {
    Left,
    Down,
    Up,
    Right,
    Stay,
}

impl Motion {
    /// Horizontal step of the motion.
    pub open spec fn dx(self) -> int {
        match self {
            Motion::Left => -1,
            Motion::Right => 1,
            _ => 0,
        }
    }

    /// Vertical step of the motion (down is towards larger `y`).
    pub open spec fn dy(self) -> int {
        match self {
            Motion::Down => 1,
            Motion::Up => -1,
            _ => 0,
        }
    }

    /// How many applications of the motion bring a cursor back to where it
    /// started on a `w` by `h` canvas.
    pub open spec fn period(self, w: usize, h: usize) -> nat {
        match self {
            Motion::Left | Motion::Right => w as nat,
            Motion::Down | Motion::Up => h as nat,
            Motion::Stay => 1,
        }
    }
}

/// A position of the `w` by `h` canvas.
pub open spec fn on_canvas(c: Pixel, w: usize, h: usize) -> bool {
    c.0 < w && c.1 < h
}

/// The cursor after one motion, wrapping round the canvas edges.
pub open spec fn moved(c: Pixel, m: Motion, w: usize, h: usize) -> Pixel {
    (((c.0 + m.dx()) % (w as int)) as usize, ((c.1 + m.dy()) % (h as int)) as usize)
}

/// The cursor after `n` applications of the same motion.
pub open spec fn moved_n(c: Pixel, m: Motion, n: nat, w: usize, h: usize) -> Pixel
    decreases n,
{
    if n == 0 {
        c
    } else {
        moved(moved_n(c, m, (n - 1) as nat, w, h), m, w, h)
    }
}

/// One coordinate moved by `d` in `-1..=1`, modulo `n`.
fn wrap_step(c: usize, d: i8, n: usize) -> (r: usize)
    requires
        c < n,
        -1 <= d <= 1,
    ensures
        r == (c + d) % (n as int),
        r < n,
{
    if d == 0 {
        proof { lemma_small_mod(c as nat, n as nat); }
        c
    } else if d == 1 {
        if c + 1 == n {
            proof { lemma_mod_self_0(n as int); }
            0
        } else {
            proof { lemma_small_mod((c + 1) as nat, n as nat); }
            c + 1
        }
    } else {
        if c == 0 {
            proof {
                lemma_mod_add_multiples_vanish(-1, n as int);
                lemma_small_mod((n - 1) as nat, n as nat);
            }
            n - 1
        } else {
            proof { lemma_small_mod((c - 1) as nat, n as nat); }
            c - 1
        }
    }
}

/// Moves the cursor `c` by `m` on a `w` by `h` canvas, wrapping round the
/// edges (toroidally), so the result is always on the canvas.
pub fn wrapping_displace(c: Pixel, m: Motion, w: usize, h: usize) -> (r: Pixel)
    requires
        on_canvas(c, w, h),
    ensures
        r == moved(c, m, w, h),
        on_canvas(r, w, h),
{
    let (dx, dy): (i8, i8) = match m {
        Motion::Left => (-1, 0),
        Motion::Down => (0, 1),
        Motion::Up => (0, -1),
        Motion::Right => (1, 0),
        Motion::Stay => (0, 0),
    };
    (wrap_step(c.0, dx, w), wrap_step(c.1, dy, h))
}

proof fn lemma_moved_n_closed(c: Pixel, m: Motion, n: nat, w: usize, h: usize)
    requires
        on_canvas(c, w, h),
    ensures
        moved_n(c, m, n, w, h).0 as int == (c.0 + n * m.dx()) % (w as int),
        moved_n(c, m, n, w, h).1 as int == (c.1 + n * m.dy()) % (h as int),
        on_canvas(moved_n(c, m, n, w, h), w, h),
    decreases n,
{
    if n == 0 {
        lemma_small_mod(c.0 as nat, w as nat);
        lemma_small_mod(c.1 as nat, h as nat);
        assert(n * m.dx() == 0 && n * m.dy() == 0) by (nonlinear_arith)
            requires n == 0;
    } else {
        let k = (n - 1) as nat;
        lemma_moved_n_closed(c, m, k, w, h);
        let p = moved_n(c, m, k, w, h);
        lemma_add_mod_noop_right(m.dx(), c.0 + k * m.dx(), w as int);
        lemma_add_mod_noop_right(m.dy(), c.1 + k * m.dy(), h as int);
        assert(moved_n(c, m, n, w, h) == moved(p, m, w, h));
        lemma_mod_bound(p.0 + m.dx(), w as int);
        lemma_mod_bound(p.1 + m.dy(), h as int);
        assert(moved(p, m, w, h).0 as int == (p.0 + m.dx()) % (w as int));
        assert(moved(p, m, w, h).1 as int == (p.1 + m.dy()) % (h as int));
        assert(n * m.dx() == k * m.dx() + m.dx()) by (nonlinear_arith)
            requires n == k + 1;
        assert(n * m.dy() == k * m.dy() + m.dy()) by (nonlinear_arith)
            requires n == k + 1;
    }
}

/// Applying one motion as many times as the canvas is wide (for left and
/// right) or high (for up and down) brings the cursor back to where it
/// started.
pub proof fn lemma_full_cycle_returns(c: Pixel, m: Motion, w: usize, h: usize)
    requires
        on_canvas(c, w, h),
    ensures
        moved_n(c, m, m.period(w, h), w, h) == c,
{
    let n = m.period(w, h);
    lemma_moved_n_closed(c, m, n, w, h);
    lemma_small_mod(c.0 as nat, w as nat);
    lemma_small_mod(c.1 as nat, h as nat);
    match m {
        Motion::Left | Motion::Right => {
            assert(n * m.dx() == w * m.dx());
            lemma_mod_multiples_vanish(m.dx(), c.0 as int, w as int);
            assert(n * m.dy() == 0) by (nonlinear_arith)
                requires m.dy() == 0;
        },
        Motion::Down | Motion::Up => {
            assert(n * m.dy() == h * m.dy());
            lemma_mod_multiples_vanish(m.dy(), c.1 as int, h as int);
            assert(n * m.dx() == 0) by (nonlinear_arith)
                requires m.dx() == 0;
        },
        Motion::Stay => {},
    }
}

} // verus!
