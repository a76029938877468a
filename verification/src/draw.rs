//! The sprite blit: the one operation that writes the display pixel by
//! pixel.  A sprite of up to 15 rows, 8 bits per row, is XOR-blended onto
//! the grid; coordinates wrap modulo the grid width and height, and a
//! collision — some XOR turning a set pixel off — is reported.
use vstd::prelude::*;

verus! {

/// Bit `c` (0 = leftmost) of a sprite row byte.
pub open spec fn spr_bit(b: u8, c: int) -> bool {
    if c == 0 {
        b / 128 % 2 == 1
    } else if c == 1 {
        b / 64 % 2 == 1
    } else if c == 2 {
        b / 32 % 2 == 1
    } else if c == 3 {
        b / 16 % 2 == 1
    } else if c == 4 {
        b / 8 % 2 == 1
    } else if c == 5 {
        b / 4 % 2 == 1
    } else if c == 6 {
        b / 2 % 2 == 1
    } else {
        b % 2 == 1
    }
}

/// Column hit by sprite bit `c` from origin column `x0`, wrapped modulo 64.
pub open spec fn wrap_x(x0: int, c: int) -> int {
    if x0 + c < 64 {
        x0 + c
    } else {
        x0 + c - 64
    }
}

/// Row hit by sprite row `r` from origin row `y0`, wrapped modulo 32.
pub open spec fn wrap_y(y0: int, r: int) -> int {
    if y0 + r < 32 {
        y0 + r
    } else {
        y0 + r - 32
    }
}

/// Row-major pixel index hit by sprite row `r`, bit `c`, from origin
/// `(x0, y0)`.
pub open spec fn pix_index(x0: int, y0: int, r: int, c: int) -> int {
    wrap_y(y0, r) * 64 + wrap_x(x0, c)
}

/// The sprite row whose wrapped target is grid row `py`, given origin row
/// `y0`; meaningful when it is below the sprite height.
pub open spec fn row_off(y0: int, py: int) -> int {
    if py >= y0 {
        py - y0
    } else {
        py - y0 + 32
    }
}

/// The sprite bit whose wrapped target is grid column `px`, given origin
/// column `x0`; meaningful when it is below 8.
pub open spec fn col_off(x0: int, px: int) -> int {
    if px >= x0 {
        px - x0
    } else {
        px - x0 + 64
    }
}

/// One pixel of the blit result: the old value XORed with the sprite bit
/// aimed at it, or the old value where no sprite bit lands.
pub open spec fn draw_pixel(
    old_pix: bool,
    sprite: Seq<u8>,
    x0: int,
    y0: int,
    px: int,
    py: int,
) -> bool {
    let r = row_off(y0, py);
    let c = col_off(x0, px);
    if r < sprite.len() && c < 8 {
        old_pix != spr_bit(sprite[r], c)
    } else {
        old_pix
    }
}

/// The whole grid after the blit.
pub open spec fn draw_result(screen: Seq<bool>, sprite: Seq<u8>, x0: int, y0: int) -> Seq<bool> {
    Seq::new(2048, |p: int| draw_pixel(screen[p], sprite, x0, y0, p % 64, p / 64))
}

/// Whether the blit collides: some sprite bit that is 1 lands on a pixel
/// that was already set.
pub open spec fn draw_hit(screen: Seq<bool>, sprite: Seq<u8>, x0: int, y0: int) -> bool {
    exists|r: int, c: int|
        0 <= r < sprite.len() && 0 <= c < 8 && spr_bit(sprite[r], c)
            && screen[pix_index(x0, y0, r, c)]
}

/// Whether sprite row `r`, bit `c` has been processed once the blit has
/// reached row `rr`, bit `cc`: rows are walked outward, bits left to right.
pub open spec fn done_bit(r: int, c: int, rr: int, cc: int) -> bool {
    r < rr || (r == rr && c < cc)
}

/// One pixel of the blit in flight: only sprite bits processed so far have
/// been XORed in.
pub open spec fn partial_pixel(
    old_pix: bool,
    sprite: Seq<u8>,
    x0: int,
    y0: int,
    px: int,
    py: int,
    rr: int,
    cc: int,
) -> bool {
    let r = row_off(y0, py);
    let c = col_off(x0, px);
    if r < sprite.len() && c < 8 && done_bit(r, c, rr, cc) {
        old_pix != spr_bit(sprite[r], c)
    } else {
        old_pix
    }
}

/// The grid once the blit has reached row `rr`, bit `cc`.
pub open spec fn partial_draw(
    screen: Seq<bool>,
    sprite: Seq<u8>,
    x0: int,
    y0: int,
    rr: int,
    cc: int,
) -> Seq<bool> {
    Seq::new(2048, |p: int| partial_pixel(screen[p], sprite, x0, y0, p % 64, p / 64, rr, cc))
}

/// Whether a collision has been seen once the blit has reached row `rr`,
/// bit `cc`.
pub open spec fn partial_hit(
    screen: Seq<bool>,
    sprite: Seq<u8>,
    x0: int,
    y0: int,
    rr: int,
    cc: int,
) -> bool {
    exists|r: int, c: int|
        0 <= r < sprite.len() && 0 <= c < 8 && done_bit(r, c, rr, cc) && spr_bit(sprite[r], c)
            && screen[pix_index(x0, y0, r, c)]
}

/// A pixel index of the grid decomposes into its row and column.
pub proof fn lemma_pix_decomp(q: int)
    requires
        0 <= q < 2048,
    ensures
        q == (q / 64) * 64 + q % 64,
        0 <= q % 64 < 64,
        0 <= q / 64 < 32,
{
    vstd::arithmetic::div_mod::lemma_fundamental_div_mod(q, 64);
    vstd::arithmetic::div_mod::lemma_mod_bound(q, 64);
}

/// The target of sprite row `r`, bit `c` is a pixel of the grid, and taking
/// the row and column offsets of that pixel leads back to `r` and `c`: the
/// map from sprite bits to pixels is injective.
pub proof fn lemma_pix_index(x0: int, y0: int, r: int, c: int)
    requires
        0 <= x0 < 64,
        0 <= y0 < 32,
        0 <= r < 32,
        0 <= c < 8,
    ensures
        0 <= pix_index(x0, y0, r, c) < 2048,
        pix_index(x0, y0, r, c) % 64 == wrap_x(x0, c),
        pix_index(x0, y0, r, c) / 64 == wrap_y(y0, r),
        row_off(y0, pix_index(x0, y0, r, c) / 64) == r,
        col_off(x0, pix_index(x0, y0, r, c) % 64) == c,
{
    let py = wrap_y(y0, r);
    let px = wrap_x(x0, c);
    assert(0 <= py < 32);
    assert(0 <= px < 64);
    assert((py * 64 + px) % 64 == px && (py * 64 + px) / 64 == py) by (nonlinear_arith)
        requires
            0 <= py < 32,
            0 <= px < 64,
    ;
}

/// Before any sprite bit is processed the grid is unchanged and no
/// collision has been seen.
pub proof fn lemma_partial_start(screen: Seq<bool>, sprite: Seq<u8>, x0: int, y0: int)
    requires
        screen.len() == 2048,
        0 <= x0 < 64,
        0 <= y0 < 32,
    ensures
        partial_draw(screen, sprite, x0, y0, 0, 0) == screen,
        !partial_hit(screen, sprite, x0, y0, 0, 0),
{
    assert(partial_draw(screen, sprite, x0, y0, 0, 0) =~= screen);
}

/// Finishing the bits of one row is the same as standing at the start of
/// the next row.
pub proof fn lemma_partial_row_step(
    screen: Seq<bool>,
    sprite: Seq<u8>,
    x0: int,
    y0: int,
    rr: int,
)
    requires
        screen.len() == 2048,
        0 <= x0 < 64,
        0 <= y0 < 32,
        0 <= rr,
    ensures
        partial_draw(screen, sprite, x0, y0, rr, 8) == partial_draw(screen, sprite, x0, y0, rr + 1, 0),
        partial_hit(screen, sprite, x0, y0, rr, 8) == partial_hit(screen, sprite, x0, y0, rr + 1, 0),
{
    assert(partial_draw(screen, sprite, x0, y0, rr, 8) =~= partial_draw(
        screen,
        sprite,
        x0,
        y0,
        rr + 1,
        0,
    ));
    if partial_hit(screen, sprite, x0, y0, rr, 8) {
        let (r, c) = choose|r: int, c: int|
            0 <= r < sprite.len() && 0 <= c < 8 && done_bit(r, c, rr, 8) && spr_bit(sprite[r], c)
                && screen[pix_index(x0, y0, r, c)];
        assert(done_bit(r, c, rr + 1, 0));
        assert(partial_hit(screen, sprite, x0, y0, rr + 1, 0));
    }
    if partial_hit(screen, sprite, x0, y0, rr + 1, 0) {
        let (r, c) = choose|r: int, c: int|
            0 <= r < sprite.len() && 0 <= c < 8 && done_bit(r, c, rr + 1, 0) && spr_bit(sprite[r], c)
                && screen[pix_index(x0, y0, r, c)];
        assert(done_bit(r, c, rr, 8));
        assert(partial_hit(screen, sprite, x0, y0, rr, 8));
    }
}

/// Once every row is processed, the blit in flight is the finished blit and
/// the collision seen so far is the blit's collision.
pub proof fn lemma_partial_finish(screen: Seq<bool>, sprite: Seq<u8>, x0: int, y0: int)
    requires
        screen.len() == 2048,
        0 <= x0 < 64,
        0 <= y0 < 32,
    ensures
        partial_draw(screen, sprite, x0, y0, sprite.len() as int, 0) == draw_result(
            screen,
            sprite,
            x0,
            y0,
        ),
        partial_hit(screen, sprite, x0, y0, sprite.len() as int, 0) == draw_hit(
            screen,
            sprite,
            x0,
            y0,
        ),
{
    assert(partial_draw(screen, sprite, x0, y0, sprite.len() as int, 0) =~= draw_result(
        screen,
        sprite,
        x0,
        y0,
    ));
    if partial_hit(screen, sprite, x0, y0, sprite.len() as int, 0) {
        let (r, c) = choose|r: int, c: int|
            0 <= r < sprite.len() && 0 <= c < 8 && done_bit(r, c, sprite.len() as int, 0)
                && spr_bit(sprite[r], c) && screen[pix_index(x0, y0, r, c)];
        assert(draw_hit(screen, sprite, x0, y0));
    }
    if draw_hit(screen, sprite, x0, y0) {
        let (r, c) = choose|r: int, c: int|
            0 <= r < sprite.len() && 0 <= c < 8 && spr_bit(sprite[r], c) && screen[pix_index(
                x0,
                y0,
                r,
                c,
            )];
        assert(done_bit(r, c, sprite.len() as int, 0));
        assert(partial_hit(screen, sprite, x0, y0, sprite.len() as int, 0));
    }
}

/// Processing one sprite bit: the pixel it aims at still holds its original
/// value, the grid changes at exactly that pixel when the bit is 1 and not
/// at all when it is 0, and a collision is seen exactly when one had been
/// seen before or this bit is 1 over an originally set pixel.
pub proof fn lemma_partial_bit_step(
    screen: Seq<bool>,
    sprite: Seq<u8>,
    x0: int,
    y0: int,
    rr: int,
    cc: int,
)
    requires
        screen.len() == 2048,
        sprite.len() <= 15,
        0 <= x0 < 64,
        0 <= y0 < 32,
        0 <= rr < sprite.len(),
        0 <= cc < 8,
    ensures
        partial_draw(screen, sprite, x0, y0, rr, cc)[pix_index(x0, y0, rr, cc)] == screen[pix_index(
            x0,
            y0,
            rr,
            cc,
        )],
        spr_bit(sprite[rr], cc) ==> partial_draw(screen, sprite, x0, y0, rr, cc + 1)
            == partial_draw(screen, sprite, x0, y0, rr, cc).update(
            pix_index(x0, y0, rr, cc),
            !screen[pix_index(x0, y0, rr, cc)],
        ),
        !spr_bit(sprite[rr], cc) ==> partial_draw(screen, sprite, x0, y0, rr, cc + 1)
            == partial_draw(screen, sprite, x0, y0, rr, cc),
        partial_hit(screen, sprite, x0, y0, rr, cc + 1) == (partial_hit(
            screen,
            sprite,
            x0,
            y0,
            rr,
            cc,
        ) || (spr_bit(sprite[rr], cc) && screen[pix_index(x0, y0, rr, cc)])),
{
    lemma_pix_index(x0, y0, rr, cc);
    let p = pix_index(x0, y0, rr, cc);
    assert(!done_bit(rr, cc, rr, cc));
    assert(partial_draw(screen, sprite, x0, y0, rr, cc)[p] == screen[p]);
    assert forall|q: int| 0 <= q < 2048 && q != p implies partial_pixel(
        screen[q],
        sprite,
        x0,
        y0,
        q % 64,
        q / 64,
        rr,
        cc + 1,
    ) == partial_pixel(screen[q], sprite, x0, y0, q % 64, q / 64, rr, cc) by {
        lemma_pix_decomp(q);
        let r = row_off(y0, q / 64);
        let c = col_off(x0, q % 64);
        if 0 <= r < sprite.len() && 0 <= c < 8 && r == rr && c == cc {
            // the inverse offsets send q back to p, so q == p — contradiction
            assert(q / 64 == wrap_y(y0, rr));
            assert(q % 64 == wrap_x(x0, cc));
            assert(q == p);
        }
    }
    if spr_bit(sprite[rr], cc) {
        let target = partial_draw(screen, sprite, x0, y0, rr, cc).update(p, !screen[p]);
        assert forall|q: int| 0 <= q < 2048 implies partial_draw(
            screen,
            sprite,
            x0,
            y0,
            rr,
            cc + 1,
        )[q] == target[q] by {
            if q == p {
                assert(done_bit(rr, cc, rr, cc + 1));
                assert(partial_pixel(screen[p], sprite, x0, y0, p % 64, p / 64, rr, cc + 1)
                    == !screen[p]);
            }
        }
        assert(partial_draw(screen, sprite, x0, y0, rr, cc + 1) =~= target);
    } else {
        assert forall|q: int| 0 <= q < 2048 implies partial_draw(
            screen,
            sprite,
            x0,
            y0,
            rr,
            cc + 1,
        )[q] == partial_draw(screen, sprite, x0, y0, rr, cc)[q] by {
            if q == p {
                assert(partial_pixel(screen[p], sprite, x0, y0, p % 64, p / 64, rr, cc + 1)
                    == screen[p]);
            }
        }
        assert(partial_draw(screen, sprite, x0, y0, rr, cc + 1) =~= partial_draw(
            screen,
            sprite,
            x0,
            y0,
            rr,
            cc,
        ));
    }
    if partial_hit(screen, sprite, x0, y0, rr, cc + 1) {
        let (r, c) = choose|r: int, c: int|
            0 <= r < sprite.len() && 0 <= c < 8 && done_bit(r, c, rr, cc + 1) && spr_bit(
                sprite[r],
                c,
            ) && screen[pix_index(x0, y0, r, c)];
        if r == rr && c == cc {
            assert(spr_bit(sprite[rr], cc) && screen[p]);
        } else {
            assert(done_bit(r, c, rr, cc));
            assert(partial_hit(screen, sprite, x0, y0, rr, cc));
        }
    }
    if partial_hit(screen, sprite, x0, y0, rr, cc) {
        let (r, c) = choose|r: int, c: int|
            0 <= r < sprite.len() && 0 <= c < 8 && done_bit(r, c, rr, cc) && spr_bit(sprite[r], c)
                && screen[pix_index(x0, y0, r, c)];
        assert(done_bit(r, c, rr, cc + 1));
        assert(partial_hit(screen, sprite, x0, y0, rr, cc + 1));
    }
    if spr_bit(sprite[rr], cc) && screen[p] {
        assert(done_bit(rr, cc, rr, cc + 1));
        assert(partial_hit(screen, sprite, x0, y0, rr, cc + 1));
    }
}

/// Blitting the identical sprite at the identical origin twice in
/// succession restores every pixel: XOR is self-inverse.  The collision
/// flag of the second blit reports exactly the sprite bits that were 1 over
/// a pixel clear before the first blit — the first blit turned those pixels
/// on.
pub proof fn lemma_draw_twice(screen: Seq<bool>, sprite: Seq<u8>, x0: int, y0: int)
    requires
        screen.len() == 2048,
        sprite.len() <= 15,
        0 <= x0 < 64,
        0 <= y0 < 32,
    ensures
        draw_result(draw_result(screen, sprite, x0, y0), sprite, x0, y0) == screen,
        draw_hit(draw_result(screen, sprite, x0, y0), sprite, x0, y0) <==> (exists|r: int, c: int|
            0 <= r < sprite.len() && 0 <= c < 8 && spr_bit(sprite[r], c)
                && !screen[pix_index(x0, y0, r, c)]),
{
    let once = draw_result(screen, sprite, x0, y0);
    let twice = draw_result(once, sprite, x0, y0);
    assert forall|p: int| 0 <= p < 2048 implies twice[p] == screen[p] by {
        assert(once[p] == draw_pixel(screen[p], sprite, x0, y0, p % 64, p / 64));
        assert(twice[p] == draw_pixel(once[p], sprite, x0, y0, p % 64, p / 64));
    }
    assert(twice =~= screen);
    assert forall|r: int, c: int|
        0 <= r < sprite.len() && 0 <= c < 8 implies once[pix_index(x0, y0, r, c)] == !screen[
        pix_index(x0, y0, r, c)] || !spr_bit(sprite[r], c) by {
        lemma_pix_index(x0, y0, r, c);
        let p = pix_index(x0, y0, r, c);
        assert(once[p] == draw_pixel(screen[p], sprite, x0, y0, p % 64, p / 64));
    }
    if draw_hit(once, sprite, x0, y0) {
        let (r, c) = choose|r: int, c: int|
            0 <= r < sprite.len() && 0 <= c < 8 && spr_bit(sprite[r], c)
                && once[pix_index(x0, y0, r, c)];
        assert(!screen[pix_index(x0, y0, r, c)]);
    }
    if exists|r: int, c: int|
        0 <= r < sprite.len() && 0 <= c < 8 && spr_bit(sprite[r], c)
            && !screen[pix_index(x0, y0, r, c)] {
        let (r, c) = choose|r: int, c: int|
            0 <= r < sprite.len() && 0 <= c < 8 && spr_bit(sprite[r], c)
                && !screen[pix_index(x0, y0, r, c)];
        assert(once[pix_index(x0, y0, r, c)]);
        assert(draw_hit(once, sprite, x0, y0));
    }
}

} // verus!
