//! The monochrome framebuffer and its XOR sprite blit.
//!
//! The grid is 64 pixels wide and 32 high, stored row-major as one byte per
//! pixel, each byte 0 or 1.  Sprites wrap around both edges: a sprite bit at
//! column `i` of row `j` lands on pixel `((x + i) % 64, (y + j) % 32)`.

use vstd::prelude::*;

verus! {

/// Width of the pixel grid.
pub const WIDTH: usize = 64;

/// Height of the pixel grid.
pub const HEIGHT: usize = 32;

pub struct Display {
    /// One byte per pixel, row-major, origin at the top left; each entry is 0 or 1.
    pub memory: Vec<u8>,
}

/// Row-major index of pixel `(px, py)`.
pub open spec fn pix(px: int, py: int) -> int {
    px + py * 64
}

/// Whether bit `i` (counted from the left, so bit 0 is the most significant)
/// of a sprite row is set.
pub open spec fn sprite_bit(row: u8, i: int) -> bool {
    (row >> ((7 - i) as u8)) & 1 == 1
}

/// The grid after blitting `sprite` at origin `(x, y)` with XOR and
/// wrap-around on both axes.  Each pixel is hit by at most one sprite bit,
/// namely column `(px - x) % 64` of row `(py - y) % 32` when those fall
/// inside the sprite; a set bit flips the pixel, everything else is kept.
pub open spec fn draw_grid(g: Seq<u8>, x: int, y: int, sprite: Seq<u8>) -> Seq<u8> {
    Seq::new(
        g.len(),
        |p: int|
            {
                let i = (p % 64 - x) % 64;
                let j = (p / 64 - y) % 32;
                if j < sprite.len() && i < 8 && sprite_bit(sprite[j], i) {
                    if g[p] == 1 {
                        0u8
                    } else {
                        1u8
                    }
                } else {
                    g[p]
                }
            },
    )
}

/// Whether the blit of `sprite` at `(x, y)` erases some lit pixel: a set
/// sprite bit lands on a pixel that is already 1.
pub open spec fn draw_collision(g: Seq<u8>, x: int, y: int, sprite: Seq<u8>) -> bool {
    exists|j: int, i: int|
        0 <= j < sprite.len() && 0 <= i < 8 && sprite_bit(sprite[j], i) && g[pix(
            (x + i) % 64,
            (y + j) % 32,
        )] == 1
}

/// Wrapping a window offset: the pixel column hit by sprite column `i` at
/// origin `x` is `(x + i) % n`, and mapping that column back through
/// `(col - x) % n` recovers `i`.
proof fn lemma_wrap_forward(x: int, i: int, n: int)
    requires
        0 < n,
        0 <= i < n,
    ensures
        0 <= (x + i) % n < n,
        ((x + i) % n - x) % n == i,
{
    vstd::arithmetic::div_mod::lemma_mod_division_less_than_divisor(x + i, n);
    let a = (x + i) % n;
    vstd::arithmetic::div_mod::lemma_mod_twice(x + i, n);
    vstd::arithmetic::div_mod::lemma_sub_mod_noop(a, x, n);
    vstd::arithmetic::div_mod::lemma_sub_mod_noop(x + i, x, n);
    vstd::arithmetic::div_mod::lemma_small_mod(i as nat, n as nat);
}

/// The inverse direction: a pixel column `px` whose window offset
/// `(px - x) % n` is `i` must be the column `(x + i) % n`.
proof fn lemma_wrap_backward(x: int, px: int, n: int)
    requires
        0 < n,
        0 <= px < n,
    ensures
        0 <= (px - x) % n < n,
        (x + (px - x) % n) % n == px,
{
    vstd::arithmetic::div_mod::lemma_mod_division_less_than_divisor(px - x, n);
    vstd::arithmetic::div_mod::lemma_add_mod_noop_right(x, px - x, n);
    vstd::arithmetic::div_mod::lemma_small_mod(px as nat, n as nat);
}

/// The grid after blitting the sprite rows before `jn`, and on row `jn`
/// itself the bits before `ik`: the prefix of the blit in the order the
/// executable loops walk it.
spec fn draw_part(g: Seq<u8>, x: int, y: int, s: Seq<u8>, jn: int, ik: int) -> Seq<u8> {
    Seq::new(
        g.len(),
        |p: int|
            {
                let i = (p % 64 - x) % 64;
                let j = (p / 64 - y) % 32;
                if (j < jn || (j == jn && i < ik)) && j < s.len() && i < 8 && sprite_bit(s[j], i) {
                    if g[p] == 1 {
                        0u8
                    } else {
                        1u8
                    }
                } else {
                    g[p]
                }
            },
    )
}

/// Whether some set sprite bit strictly before position `(jn, ik)` lands on
/// a lit pixel of `g`.
spec fn coll_part(g: Seq<u8>, x: int, y: int, s: Seq<u8>, jn: int, ik: int) -> bool {
    exists|j: int, i: int|
        0 <= j < s.len() && 0 <= i < 8 && (j < jn || (j == jn && i < ik)) && sprite_bit(s[j], i)
            && g[pix((x + i) % 64, (y + j) % 32)] == 1
}

/// A full-sized grid whose every pixel byte is 0 or 1.
pub open spec fn grid_wf(g: Seq<u8>) -> bool {
    &&& g.len() == 2048
    &&& forall|p: int| 0 <= p < 2048 ==> g[p] == 0 || g[p] == 1
}

/// The XOR blit is an involution: drawing the same sprite at the same origin
/// twice in a row restores every pixel of the grid.
pub proof fn lemma_draw_twice_restores(g: Seq<u8>, x: int, y: int, s: Seq<u8>)
    requires
        grid_wf(g),
    ensures
        draw_grid(draw_grid(g, x, y, s), x, y, s) == g,
{
    let g1 = draw_grid(g, x, y, s);
    assert forall|p: int| 0 <= p < 2048 implies draw_grid(g1, x, y, s)[p] == g[p] by {}
    assert(draw_grid(draw_grid(g, x, y, s), x, y, s) =~= g);
}

/// A second identical draw reports a collision exactly when some set sprite
/// bit landed on a pixel that was clear before the first draw: the first
/// draw lit that pixel, and the second erases it.
pub proof fn lemma_second_draw_collision(g: Seq<u8>, x: int, y: int, s: Seq<u8>)
    requires
        grid_wf(g),
        s.len() <= 15,
    ensures
        draw_collision(draw_grid(g, x, y, s), x, y, s) == exists|j: int, i: int|
            0 <= j < s.len() && 0 <= i < 8 && sprite_bit(s[j], i) && g[pix(
                (x + i) % 64,
                (y + j) % 32,
            )] == 0,
{
    let g1 = draw_grid(g, x, y, s);
    assert forall|j: int, i: int|
        0 <= j < s.len() && 0 <= i < 8 && sprite_bit(s[j], i) implies g1[pix(
        (x + i) % 64,
        (y + j) % 32,
    )] == (if g[pix((x + i) % 64, (y + j) % 32)] == 0 {
        1u8
    } else {
        0u8
    }) by {
        lemma_wrap_forward(x, i, 64);
        lemma_wrap_forward(y, j, 32);
        let p0 = pix((x + i) % 64, (y + j) % 32);
        vstd::arithmetic::div_mod::lemma_fundamental_div_mod_converse(
            p0,
            64,
            (y + j) % 32,
            (x + i) % 64,
        );
    }
    if draw_collision(g1, x, y, s) {
        let (j2, i2) = choose|j2: int, i2: int|
            0 <= j2 < s.len() && 0 <= i2 < 8 && sprite_bit(s[j2], i2) && g1[pix(
                (x + i2) % 64,
                (y + j2) % 32,
            )] == 1;
        assert(g[pix((x + i2) % 64, (y + j2) % 32)] == 0);
    }
    if exists|j: int, i: int|
        0 <= j < s.len() && 0 <= i < 8 && sprite_bit(s[j], i) && g[pix(
            (x + i) % 64,
            (y + j) % 32,
        )] == 0 {
        let (j2, i2) = choose|j2: int, i2: int|
            0 <= j2 < s.len() && 0 <= i2 < 8 && sprite_bit(s[j2], i2) && g[pix(
                (x + i2) % 64,
                (y + j2) % 32,
            )] == 0;
        assert(g1[pix((x + i2) % 64, (y + j2) % 32)] == 1);
        assert(draw_collision(g1, x, y, s));
    }
}

/// Drawing an identical sprite twice in a row: when some set bit of the
/// sprite lands on a pixel that was clear at the start, the second draw
/// reports a collision, and the grid ends exactly as it began.
pub proof fn lemma_draw_twice(g: Seq<u8>, x: int, y: int, s: Seq<u8>)
    requires
        grid_wf(g),
        s.len() <= 15,
        exists|j: int, i: int|
            0 <= j < s.len() && 0 <= i < 8 && sprite_bit(s[j], i) && g[pix(
                (x + i) % 64,
                (y + j) % 32,
            )] == 0,
    ensures
        draw_collision(draw_grid(g, x, y, s), x, y, s),
        draw_grid(draw_grid(g, x, y, s), x, y, s) == g,
{
    lemma_draw_twice_restores(g, x, y, s);
    lemma_second_draw_collision(g, x, y, s);
}

impl Display {
    /// The grid is full-sized and every pixel byte is 0 or 1.
    pub open spec fn wf(&self) -> bool {
        grid_wf(self.memory@)
    }

    pub fn new() -> (d: Display)
        ensures
            d.wf(),
            d.memory@ == Seq::new(2048, |p: int| 0u8),
    {
        let mut memory: Vec<u8> = Vec::new();
        let mut k: usize = 0;
        while k < 2048
            invariant
                k <= 2048,
                memory@.len() == k,
                forall|p: int| 0 <= p < k ==> memory@[p] == 0,
            decreases 2048 - k,
        {
            memory.push(0);
            k = k + 1;
        }
        proof {
            assert(memory@ =~= Seq::new(2048, |p: int| 0u8));
        }
        Display { memory }
    }

    pub fn get_pixel(&self, x: usize, y: usize) -> (r: bool)
        requires
            self.memory@.len() == 2048,
            x + y * 64 < 2048,
        ensures
            r == (self.memory@[pix(x as int, y as int)] == 1),
    {
        self.memory[x + y * WIDTH] == 1
    }

    pub fn set_pixel(&mut self, x: usize, y: usize, val: bool)
        requires
            old(self).memory@.len() == 2048,
            x + y * 64 < 2048,
        ensures
            final(self).memory@ == old(self).memory@.update(
                pix(x as int, y as int),
                if val {
                    1u8
                } else {
                    0u8
                },
            ),
    {
        self.memory[x + y * WIDTH] = if val {
            1
        } else {
            0
        };
    }

    /// Blit `sprite` at `(x, y)` with XOR and wrap-around, reporting whether
    /// some previously lit pixel was erased.  Rows beyond the grid height
    /// never occur: a sprite has at most 15 rows.
    #[verifier::loop_isolation(false)]
    pub fn draw(&mut self, x: usize, y: usize, sprite: &[u8]) -> (collision: bool)
        requires
            old(self).wf(),
            sprite@.len() <= 15,
            x + 8 <= usize::MAX,
            y + 15 <= usize::MAX,
        ensures
            final(self).wf(),
            final(self).memory@ == draw_grid(old(self).memory@, x as int, y as int, sprite@),
            collision == draw_collision(old(self).memory@, x as int, y as int, sprite@),
    {
        let rows = sprite.len();
        let mut collision = false;
        let ghost g0 = self.memory@;
        let ghost xi_ = x as int;
        let ghost yi_ = y as int;
        proof {
            assert(self.memory@ =~= draw_part(g0, xi_, yi_, sprite@, 0, 0));
        }
        let mut j: usize = 0;
        while j < rows
            invariant
                j <= rows,
                self.memory@ == draw_part(g0, xi_, yi_, sprite@, j as int, 0),
                collision == coll_part(g0, xi_, yi_, sprite@, j as int, 0),
            decreases rows - j,
        {
            let row = sprite[j];
            let mut i: usize = 0;
            while i < 8
                invariant
                    j < rows,
                    i <= 8,
                    row == sprite@[j as int],
                    self.memory@ == draw_part(g0, xi_, yi_, sprite@, j as int, i as int),
                    collision == coll_part(g0, xi_, yi_, sprite@, j as int, i as int),
                decreases 8 - i,
            {
                let shift: u8 = (7 - i) as u8;
                let new_value = (row >> shift) & 0x01;
                let ghost part_pre = self.memory@;
                let ghost coll_pre = collision;
                if new_value == 1 {
                    let xi = (x + i) % WIDTH;
                    let yj = (y + j) % HEIGHT;
                    proof {
                        lemma_wrap_forward(xi_, i as int, 64);
                        lemma_wrap_forward(yi_, j as int, 32);
                        assert(xi + yj * 64 < 2048);
                    }
                    let old_value = self.get_pixel(xi, yj);
                    if old_value {
                        collision = true;
                    }
                    self.set_pixel(xi, yj, !old_value);
                    proof {
                        let p0 = pix(xi as int, yj as int);
                        vstd::arithmetic::div_mod::lemma_fundamental_div_mod_converse(
                            p0,
                            64,
                            yj as int,
                            xi as int,
                        );
                        // The updated pixel is exactly the one that position (j, i)
                        // of the sprite owns in the blit, and it was untouched so far.
                        assert(part_pre[p0] == g0[p0]);
                        assert forall|p: int| 0 <= p < 2048 implies self.memory@[p] == draw_part(
                            g0,
                            xi_,
                            yi_,
                            sprite@,
                            j as int,
                            i as int + 1,
                        )[p] by {
                            vstd::arithmetic::div_mod::lemma_fundamental_div_mod(p, 64);
                            vstd::arithmetic::div_mod::lemma_mod_division_less_than_divisor(p, 64);
                            lemma_wrap_backward(xi_, p % 64, 64);
                            lemma_wrap_backward(yi_, p / 64, 32);
                        }
                        assert(self.memory@ =~= draw_part(
                            g0,
                            xi_,
                            yi_,
                            sprite@,
                            j as int,
                            i as int + 1,
                        ));
                        // Collision accounting for the one new position.
                        assert(sprite_bit(sprite@[j as int], i as int));
                        assert(collision == coll_part(g0, xi_, yi_, sprite@, j as int, i as int + 1))
                            by {
                            if collision {
                                if coll_pre {
                                    let (j2, i2) = choose|j2: int, i2: int|
                                        0 <= j2 < sprite@.len() && 0 <= i2 < 8 && (j2 < j as int || (
                                        j2 == j as int && i2 < i as int)) && sprite_bit(
                                            sprite@[j2],
                                            i2,
                                        ) && g0[pix((xi_ + i2) % 64, (yi_ + j2) % 32)] == 1;
                                    assert(coll_part(
                                        g0,
                                        xi_,
                                        yi_,
                                        sprite@,
                                        j as int,
                                        i as int + 1,
                                    ));
                                } else {
                                    assert(g0[pix((xi_ + i as int) % 64, (yi_ + j as int) % 32)]
                                        == 1);
                                    assert(coll_part(
                                        g0,
                                        xi_,
                                        yi_,
                                        sprite@,
                                        j as int,
                                        i as int + 1,
                                    ));
                                }
                            } else {
                                if coll_part(g0, xi_, yi_, sprite@, j as int, i as int + 1) {
                                    let (j2, i2) = choose|j2: int, i2: int|
                                        0 <= j2 < sprite@.len() && 0 <= i2 < 8 && (j2 < j as int || (
                                        j2 == j as int && i2 < i as int + 1)) && sprite_bit(
                                            sprite@[j2],
                                            i2,
                                        ) && g0[pix((xi_ + i2) % 64, (yi_ + j2) % 32)] == 1;
                                    if j2 == j as int && i2 == i as int {
                                        assert(old_value);
                                    } else {
                                        assert(coll_part(g0, xi_, yi_, sprite@, j as int, i as int));
                                    }
                                }
                            }
                        }
                    }
                } else {
                    proof {
                        assert forall|p: int| 0 <= p < 2048 implies self.memory@[p] == draw_part(
                            g0,
                            xi_,
                            yi_,
                            sprite@,
                            j as int,
                            i as int + 1,
                        )[p] by {}
                        assert(self.memory@ =~= draw_part(
                            g0,
                            xi_,
                            yi_,
                            sprite@,
                            j as int,
                            i as int + 1,
                        ));
                        assert(collision == coll_part(g0, xi_, yi_, sprite@, j as int, i as int + 1))
                            by {
                            if coll_part(g0, xi_, yi_, sprite@, j as int, i as int + 1) {
                                let (j2, i2) = choose|j2: int, i2: int|
                                    0 <= j2 < sprite@.len() && 0 <= i2 < 8 && (j2 < j as int || (j2
                                    == j as int && i2 < i as int + 1)) && sprite_bit(sprite@[j2], i2)
                                    && g0[pix((xi_ + i2) % 64, (yi_ + j2) % 32)] == 1;
                                if j2 == j as int && i2 == i as int {
                                    assert(!sprite_bit(sprite@[j2], i2));
                                } else {
                                    assert(coll_part(g0, xi_, yi_, sprite@, j as int, i as int));
                                }
                            }
                        }
                    }
                }
                i = i + 1;
            }
            proof {
                assert(self.memory@ =~= draw_part(g0, xi_, yi_, sprite@, j as int + 1, 0));
                assert(coll_part(g0, xi_, yi_, sprite@, j as int, 8) == coll_part(
                    g0,
                    xi_,
                    yi_,
                    sprite@,
                    j as int + 1,
                    0,
                )) by {
                    if coll_part(g0, xi_, yi_, sprite@, j as int, 8) {
                        let (j2, i2) = choose|j2: int, i2: int|
                            0 <= j2 < sprite@.len() && 0 <= i2 < 8 && (j2 < j as int || (j2
                            == j as int && i2 < 8)) && sprite_bit(sprite@[j2], i2) && g0[pix(
                                (xi_ + i2) % 64,
                                (yi_ + j2) % 32,
                            )] == 1;
                        assert(coll_part(g0, xi_, yi_, sprite@, j as int + 1, 0));
                    }
                    if coll_part(g0, xi_, yi_, sprite@, j as int + 1, 0) {
                        let (j2, i2) = choose|j2: int, i2: int|
                            0 <= j2 < sprite@.len() && 0 <= i2 < 8 && j2 < j as int + 1
                                && sprite_bit(sprite@[j2], i2) && g0[pix(
                                (xi_ + i2) % 64,
                                (yi_ + j2) % 32,
                            )] == 1;
                        assert(coll_part(g0, xi_, yi_, sprite@, j as int, 8));
                    }
                }
            }
            j = j + 1;
        }
        proof {
            assert(self.memory@ =~= draw_grid(g0, xi_, yi_, sprite@));
            assert(coll_part(g0, xi_, yi_, sprite@, rows as int, 0) == draw_collision(
                g0,
                xi_,
                yi_,
                sprite@,
            )) by {
                if coll_part(g0, xi_, yi_, sprite@, rows as int, 0) {
                    let (j2, i2) = choose|j2: int, i2: int|
                        0 <= j2 < sprite@.len() && 0 <= i2 < 8 && j2 < rows as int && sprite_bit(
                            sprite@[j2],
                            i2,
                        ) && g0[pix((xi_ + i2) % 64, (yi_ + j2) % 32)] == 1;
                    assert(draw_collision(g0, xi_, yi_, sprite@));
                }
                if draw_collision(g0, xi_, yi_, sprite@) {
                    let (j2, i2) = choose|j2: int, i2: int|
                        0 <= j2 < sprite@.len() && 0 <= i2 < 8 && sprite_bit(sprite@[j2], i2)
                            && g0[pix((xi_ + i2) % 64, (yi_ + j2) % 32)] == 1;
                    assert(coll_part(g0, xi_, yi_, sprite@, rows as int, 0));
                }
            }
        }
        collision
    }

    pub fn cls(&mut self)
        requires
            old(self).memory@.len() == 2048,
        ensures
            final(self).wf(),
            final(self).memory@ == Seq::new(2048, |p: int| 0u8),
    {
        let mut x: usize = 0;
        while x < WIDTH
            invariant
                x <= 64,
                self.memory@.len() == 2048,
                forall|p: int| 0 <= p < 2048 && p % 64 < x ==> self.memory@[p] == 0,
            decreases 64 - x,
        {
            let mut y: usize = 0;
            while y < HEIGHT
                invariant
                    x < 64,
                    y <= 32,
                    self.memory@.len() == 2048,
                    forall|p: int| 0 <= p < 2048 && p % 64 < x ==> self.memory@[p] == 0,
                    forall|p: int|
                        0 <= p < 2048 && p % 64 == x && p / 64 < y ==> self.memory@[p] == 0,
                decreases 32 - y,
            {
                proof {
                    vstd::arithmetic::div_mod::lemma_fundamental_div_mod_converse(
                        x as int + y as int * 64,
                        64,
                        y as int,
                        x as int,
                    );
                }
                self.set_pixel(x, y, false);
                y = y + 1;
            }
            x = x + 1;
        }
        proof {
            assert forall|p: int| 0 <= p < 2048 implies self.memory@[p] == 0 by {
                vstd::arithmetic::div_mod::lemma_mod_division_less_than_divisor(p, 64);
            }
            assert(self.memory@ =~= Seq::new(2048, |p: int| 0u8));
        }
    }
}

} // verus!
