//! Fixed-size monochrome framebuffer with XOR sprite compositing and
//! collision detection.
//!
//! A sprite is a sequence of bytes, each byte one row of eight pixels, most
//! significant bit leftmost. Drawing wraps the origin around the grid but
//! clips rows and columns that would fall outside it.

use vstd::prelude::*;

verus! {

/// Width of the pixel grid.
pub const WIDTH: usize = 64;

/// Height of the pixel grid.
pub const HEIGHT: usize = 32;

/// Total number of pixels in the grid.
pub const NUM_PIXELS: usize = WIDTH * HEIGHT;

/// Index of pixel (`x`, `y`) in the flattened row-major grid.
pub open spec fn pixel_index(x: int, y: int) -> int {
    y * WIDTH + x
}

/// Horizontal coordinate of the pixel at flat index `i`.
pub open spec fn pix_x(i: int) -> int {
    i % (WIDTH as int)
}

/// Vertical coordinate of the pixel at flat index `i`.
pub open spec fn pix_y(i: int) -> int {
    i / (WIDTH as int)
}

/// Whether bit `bit` of a sprite row byte is set, counting bit 0 as the
/// leftmost (most significant) pixel of the row.
pub open spec fn sprite_bit(byte: u8, bit: int) -> bool {
    (byte >> ((7 - bit) as u8)) & 1 == 1
}

/// Whether a sprite drawn with origin (`x0`, `y0`) toggles pixel (`x`, `y`):
/// the pixel lies on an unclipped row and column of the sprite and the
/// corresponding sprite bit is set.
pub open spec fn sprite_covers(x0: int, y0: int, sprite: Seq<u8>, x: int, y: int) -> bool {
    &&& y0 <= y < y0 + sprite.len()
    &&& y < HEIGHT
    &&& x0 <= x < x0 + 8
    &&& x < WIDTH
    &&& sprite_bit(sprite[y - y0], x - x0)
}

/// The pixel grid after XOR-compositing `sprite` with origin (`x0`, `y0`)
/// onto `pixels`.
pub open spec fn draw_spec(pixels: Seq<bool>, x0: int, y0: int, sprite: Seq<u8>) -> Seq<bool> {
    Seq::new(
        NUM_PIXELS as nat,
        |i: int| pixels[i] != sprite_covers(x0, y0, sprite, pix_x(i), pix_y(i)),
    )
}

/// Whether compositing `sprite` with origin (`x0`, `y0`) onto `pixels` turns
/// off at least one pixel that was on.
pub open spec fn draw_collision(pixels: Seq<bool>, x0: int, y0: int, sprite: Seq<u8>) -> bool {
    exists|x: int, y: int|
        0 <= x < WIDTH && 0 <= y < HEIGHT && pixels[pixel_index(x, y)] && #[trigger] sprite_covers(
            x0,
            y0,
            sprite,
            x,
            y,
        )
}

/// Flattening pixel coordinates and recovering them are inverse operations.
pub proof fn lemma_grid_coords(x: int, y: int)
    requires
        0 <= x < WIDTH,
        0 <= y < HEIGHT,
    ensures
        0 <= pixel_index(x, y) < NUM_PIXELS,
        pix_x(pixel_index(x, y)) == x,
        pix_y(pixel_index(x, y)) == y,
{
    assert((y * 64 + x) % 64 == x && (y * 64 + x) / 64 == y) by (nonlinear_arith)
        requires
            0 <= x < 64,
            0 <= y,
    ;
}

/// Every flat index corresponds to exactly one in-grid coordinate pair.
pub proof fn lemma_flat_index(i: int)
    requires
        0 <= i < NUM_PIXELS,
    ensures
        0 <= pix_x(i) < WIDTH,
        0 <= pix_y(i) < HEIGHT,
        pixel_index(pix_x(i), pix_y(i)) == i,
{
    assert(0 <= i % 64 < 64 && 0 <= i / 64 < 32 && (i / 64) * 64 + i % 64 == i) by (nonlinear_arith)
        requires
            0 <= i < 2048,
    ;
}

/// What the composited grid holds at an in-grid coordinate.
pub proof fn lemma_draw_spec_at(
    pixels: Seq<bool>,
    x0: int,
    y0: int,
    sprite: Seq<u8>,
    x: int,
    y: int,
)
    requires
        pixels.len() == NUM_PIXELS,
        0 <= x < WIDTH,
        0 <= y < HEIGHT,
    ensures
        draw_spec(pixels, x0, y0, sprite)[pixel_index(x, y)] == (pixels[pixel_index(x, y)]
            != sprite_covers(x0, y0, sprite, x, y)),
{
    lemma_grid_coords(x, y);
}

/// Extending a sprite by one row extends its coverage by exactly the pixels
/// of that row.
pub proof fn lemma_covers_take_succ(x0: int, y0: int, sprite: Seq<u8>, row: int, x: int, y: int)
    requires
        0 <= row < sprite.len(),
    ensures
        sprite_covers(x0, y0, sprite.take(row + 1), x, y) == (sprite_covers(
            x0,
            y0,
            sprite.take(row),
            x,
            y,
        ) || (y == y0 + row && y < HEIGHT && x0 <= x < x0 + 8 && x < WIDTH && sprite_bit(
            sprite[row],
            x - x0,
        ))),
{
}

/// A lit pixel covered by the sprite witnesses a collision.
proof fn lemma_collision_witness(
    pixels: Seq<bool>,
    x0: int,
    y0: int,
    sprite: Seq<u8>,
    x: int,
    y: int,
)
    requires
        0 <= x < WIDTH,
        0 <= y < HEIGHT,
        pixels[pixel_index(x, y)],
        sprite_covers(x0, y0, sprite, x, y),
    ensures
        draw_collision(pixels, x0, y0, sprite),
{
}

/// Picks a lit, covered pixel out of a collision.
proof fn choose_collision_witness(pixels: Seq<bool>, x0: int, y0: int, sprite: Seq<u8>) -> (xy: (
    int,
    int,
))
    requires
        draw_collision(pixels, x0, y0, sprite),
    ensures
        0 <= xy.0 < WIDTH,
        0 <= xy.1 < HEIGHT,
        pixels[pixel_index(xy.0, xy.1)],
        sprite_covers(x0, y0, sprite, xy.0, xy.1),
{
    let (x, y) = choose|x: int, y: int|
        0 <= x < WIDTH && 0 <= y < HEIGHT && pixels[pixel_index(x, y)] && #[trigger] sprite_covers(
            x0,
            y0,
            sprite,
            x,
            y,
        );
    (x, y)
}

/// Adding one row to the sprite adds exactly that row's hits to the
/// collision signal; a clipped row adds none.
proof fn lemma_collision_take_succ(pixels: Seq<bool>, x0: int, y0: int, sprite: Seq<u8>, row: int)
    requires
        pixels.len() == NUM_PIXELS,
        0 <= x0 < WIDTH,
        0 <= y0 < HEIGHT,
        0 <= row < sprite.len(),
    ensures
        draw_collision(pixels, x0, y0, sprite.take(row + 1)) == (draw_collision(
            pixels,
            x0,
            y0,
            sprite.take(row),
        ) || (y0 + row < HEIGHT && exists|x: int|
            x0 <= x < x0 + 8 && x < WIDTH && sprite_bit(sprite[row], x - x0)
                && pixels[#[trigger] pixel_index(x, y0 + row)])),
{
    let new_c = draw_collision(pixels, x0, y0, sprite.take(row + 1));
    let old_c = draw_collision(pixels, x0, y0, sprite.take(row));
    let row_c = y0 + row < HEIGHT && exists|x: int|
        x0 <= x < x0 + 8 && x < WIDTH && sprite_bit(sprite[row], x - x0)
            && pixels[#[trigger] pixel_index(x, y0 + row)];
    if new_c {
        let (x, y) = choose_collision_witness(pixels, x0, y0, sprite.take(row + 1));
        lemma_covers_take_succ(x0, y0, sprite, row, x, y);
        if sprite_covers(x0, y0, sprite.take(row), x, y) {
            lemma_collision_witness(pixels, x0, y0, sprite.take(row), x, y);
        } else {
            assert(y == y0 + row && x0 <= x < x0 + 8 && x < WIDTH && sprite_bit(sprite[row], x - x0)
                && pixels[pixel_index(x, y0 + row)]);
            assert(row_c);
        }
    }
    if old_c {
        let (x, y) = choose_collision_witness(pixels, x0, y0, sprite.take(row));
        lemma_covers_take_succ(x0, y0, sprite, row, x, y);
        lemma_collision_witness(pixels, x0, y0, sprite.take(row + 1), x, y);
    }
    if row_c {
        let x = choose|x: int|
            x0 <= x < x0 + 8 && x < WIDTH && sprite_bit(sprite[row], x - x0)
                && pixels[#[trigger] pixel_index(x, y0 + row)];
        lemma_covers_take_succ(x0, y0, sprite, row, x, y0 + row);
        lemma_collision_witness(pixels, x0, y0, sprite.take(row + 1), x, y0 + row);
    }
}

/// The monochrome pixel grid. Pixel (`x`, `y`) is at flat index
/// `y * WIDTH + x` of the view.
pub struct Screen {
    pixel_vals: Vec<bool>,
}

impl View for Screen {
    type V = Seq<bool>;

    /// The pixel states in row-major order.
    closed spec fn view(&self) -> Seq<bool> {
        self.pixel_vals@
    }
}

impl Screen {
    pub closed spec fn wf(&self) -> bool {
        self.pixel_vals@.len() == NUM_PIXELS
    }

    pub fn new() -> (screen: Screen)
        ensures
            screen.wf(),
            screen@.len() == NUM_PIXELS,
            forall|i: int| 0 <= i < NUM_PIXELS ==> !screen@[i],
    {
        let mut pixel_vals: Vec<bool> = Vec::new();
        while pixel_vals.len() < NUM_PIXELS
            invariant
                pixel_vals@.len() <= NUM_PIXELS,
                forall|i: int| 0 <= i < pixel_vals@.len() ==> !pixel_vals@[i],
            decreases NUM_PIXELS - pixel_vals@.len(),
        {
            pixel_vals.push(false);
        }
        Screen { pixel_vals }
    }

    /// Turns every pixel off.
    pub fn clear(&mut self)
        requires
            old(self).wf(),
        ensures
            final(self).wf(),
            final(self)@.len() == NUM_PIXELS,
            forall|i: int| 0 <= i < NUM_PIXELS ==> !final(self)@[i],
    {
        let mut i: usize = 0;
        while i < NUM_PIXELS
            invariant
                self.pixel_vals@.len() == NUM_PIXELS,
                i <= NUM_PIXELS,
                forall|j: int| 0 <= j < i ==> !self.pixel_vals@[j],
            decreases NUM_PIXELS - i,
        {
            self.pixel_vals.set(i, false);
            i = i + 1;
        }
    }

    /// Read-only snapshot of the pixel grid for presentation.
    pub fn get_frame_buffer(&self) -> (frame_buffer: &Vec<bool>)
        ensures
            frame_buffer@ == self@,
    {
        &self.pixel_vals
    }

    /// XOR-composites the sprite rows onto the grid with origin
    /// (`x_pos mod WIDTH`, `y_pos mod HEIGHT`), clipping rows and columns
    /// that fall outside the grid. Returns whether a pixel that was on was
    /// turned off.
    pub fn display_sprite(
        &mut self,
        x_pos: u8,
        y_pos: u8,
        sprite_data: &Vec<u8>,
    ) -> (pixel_turned_off: bool)
        requires
            old(self).wf(),
        ensures
            final(self).wf(),
            final(self)@ == draw_spec(
                old(self)@,
                x_pos as int % (WIDTH as int),
                y_pos as int % (HEIGHT as int),
                sprite_data@,
            ),
            pixel_turned_off == draw_collision(
                old(self)@,
                x_pos as int % (WIDTH as int),
                y_pos as int % (HEIGHT as int),
                sprite_data@,
            ),
    {
        let x0 = x_pos % (WIDTH as u8);
        let y0 = y_pos % (HEIGHT as u8);
        let ghost orig = self@;
        let ghost gx0 = x0 as int;
        let ghost gy0 = y0 as int;
        let mut pixel_turned_off = false;

        let mut byte_idx: usize = 0;
        while byte_idx < sprite_data.len()
            invariant
                self.pixel_vals@.len() == NUM_PIXELS,
                orig.len() == NUM_PIXELS,
                gx0 == x0 as int && gy0 == y0 as int,
                x0 < WIDTH && y0 < HEIGHT,
                byte_idx <= sprite_data@.len(),
                forall|x: int, y: int|
                    0 <= x < WIDTH && 0 <= y < HEIGHT ==> self.pixel_vals@[#[trigger] pixel_index(
                        x,
                        y,
                    )] == (orig[pixel_index(x, y)] != sprite_covers(
                        gx0,
                        gy0,
                        sprite_data@.take(byte_idx as int),
                        x,
                        y,
                    )),
                pixel_turned_off == draw_collision(
                    orig,
                    gx0,
                    gy0,
                    sprite_data@.take(byte_idx as int),
                ),
            decreases sprite_data@.len() - byte_idx,
        {
            let byte = sprite_data[byte_idx];
            let ghost row = byte_idx as int;

            if byte_idx < HEIGHT && (y0 as usize) + byte_idx < HEIGHT {
                let curr_y = (y0 as usize) + byte_idx;
                let mut bit_idx: u8 = 0;
                while bit_idx < 8
                    invariant
                        self.pixel_vals@.len() == NUM_PIXELS,
                        orig.len() == NUM_PIXELS,
                        gx0 == x0 as int && gy0 == y0 as int,
                        x0 < WIDTH && y0 < HEIGHT,
                        bit_idx <= 8,
                        row == byte_idx as int,
                        byte_idx < sprite_data@.len(),
                        byte == sprite_data@[row],
                        curr_y == gy0 + row && curr_y < HEIGHT,
                        forall|x: int, y: int|
                            0 <= x < WIDTH && 0 <= y < HEIGHT ==> self.pixel_vals@[#[trigger] pixel_index(
                                x,
                                y,
                            )] == (orig[pixel_index(x, y)] != (sprite_covers(
                                gx0,
                                gy0,
                                sprite_data@.take(row),
                                x,
                                y,
                            ) || (y == gy0 + row && gx0 <= x < gx0 + bit_idx && x < WIDTH
                                && sprite_bit(sprite_data@[row], x - gx0)))),
                        pixel_turned_off == (draw_collision(orig, gx0, gy0, sprite_data@.take(row))
                            || (exists|x: int|
                            gx0 <= x < gx0 + bit_idx && x < WIDTH && sprite_bit(
                                sprite_data@[row],
                                x - gx0,
                            ) && orig[#[trigger] pixel_index(x, gy0 + row)])),
                    decreases 8 - bit_idx,
                {
                    let curr_x = (x0 as usize) + (bit_idx as usize);
                    let ghost gx = curr_x as int;
                    if curr_x < WIDTH {
                        let bit: bool = ((byte >> (7 - bit_idx)) & 1) == 1;
                        proof {
                            assert(bit == sprite_bit(sprite_data@[row], gx - gx0));
                        }
                        if bit {
                            proof {
                                lemma_grid_coords(gx, curr_y as int);
                            }
                            let idx = curr_y * WIDTH + curr_x;
                            let ghost gidx = pixel_index(gx, curr_y as int);
                            let ghost before = self.pixel_vals@;
                            let curr_val = self.pixel_vals[idx];
                            proof {
                                assert(idx as int == gidx);
                                assert(!sprite_covers(
                                    gx0,
                                    gy0,
                                    sprite_data@.take(row),
                                    gx,
                                    curr_y as int,
                                ));
                                assert(curr_val == orig[gidx]);
                            }
                            self.pixel_vals.set(idx, !curr_val);
                            pixel_turned_off = pixel_turned_off || curr_val;
                            proof {
                                assert(self.pixel_vals@ == before.update(gidx, !curr_val));
                                assert forall|x: int, y: int|
                                    0 <= x < WIDTH && 0 <= y < HEIGHT implies self.pixel_vals@[#[trigger] pixel_index(
                                    x,
                                    y,
                                )] == (orig[pixel_index(x, y)] != (sprite_covers(
                                    gx0,
                                    gy0,
                                    sprite_data@.take(row),
                                    x,
                                    y,
                                ) || (y == gy0 + row && gx0 <= x < gx0 + bit_idx + 1 && x < WIDTH
                                    && sprite_bit(sprite_data@[row], x - gx0)))) by {
                                    lemma_grid_coords(x, y);
                                    if x == gx && y == curr_y as int {
                                        assert(self.pixel_vals@[pixel_index(x, y)] == !curr_val);
                                    } else {
                                        assert(pixel_index(x, y) != gidx);
                                        assert(self.pixel_vals@[pixel_index(x, y)] == before[pixel_index(
                                            x,
                                            y,
                                        )]);
                                        assert(!(y == gy0 + row && x == gx0 + bit_idx));
                                    }
                                }
                                if curr_val {
                                    assert(gx0 <= gx < gx0 + bit_idx + 1 && gx < WIDTH && sprite_bit(
                                        sprite_data@[row],
                                        gx - gx0,
                                    ) && orig[pixel_index(gx, gy0 + row)]);
                                }
                            }
                        }
                    }
                    proof {
                        if !pixel_turned_off {
                            assert forall|x: int|
                                gx0 <= x < gx0 + bit_idx + 1 && x < WIDTH && sprite_bit(
                                    sprite_data@[row],
                                    x - gx0,
                                ) implies !orig[#[trigger] pixel_index(x, gy0 + row)] by {
                                if x < gx0 + bit_idx {
                                } else {
                                    assert(x == gx0 + bit_idx);
                                }
                            }
                        }
                    }
                    bit_idx = bit_idx + 1;
                }
                proof {
                    assert forall|x: int, y: int|
                        0 <= x < WIDTH && 0 <= y < HEIGHT implies self.pixel_vals@[#[trigger] pixel_index(
                        x,
                        y,
                    )] == (orig[pixel_index(x, y)] != sprite_covers(
                        gx0,
                        gy0,
                        sprite_data@.take(row + 1),
                        x,
                        y,
                    )) by {
                        lemma_covers_take_succ(gx0, gy0, sprite_data@, row, x, y);
                    }
                    lemma_collision_take_succ(orig, gx0, gy0, sprite_data@, row);
                }
            } else {
                proof {
                    assert forall|x: int, y: int|
                        0 <= x < WIDTH && 0 <= y < HEIGHT implies self.pixel_vals@[#[trigger] pixel_index(
                        x,
                        y,
                    )] == (orig[pixel_index(x, y)] != sprite_covers(
                        gx0,
                        gy0,
                        sprite_data@.take(row + 1),
                        x,
                        y,
                    )) by {
                        lemma_covers_take_succ(gx0, gy0, sprite_data@, row, x, y);
                    }
                    lemma_collision_take_succ(orig, gx0, gy0, sprite_data@, row);
                }
            }
            byte_idx = byte_idx + 1;
        }
        proof {
            assert(sprite_data@.take(sprite_data@.len() as int) =~= sprite_data@);
            assert(self.pixel_vals@ =~= draw_spec(orig, gx0, gy0, sprite_data@)) by {
                assert forall|i: int| 0 <= i < NUM_PIXELS implies self.pixel_vals@[i] == draw_spec(
                    orig,
                    gx0,
                    gy0,
                    sprite_data@,
                )[i] by {
                    lemma_flat_index(i);
                }
            }
        }
        pixel_turned_off
    }
}

/// An all-zero sprite toggles no pixel and reports no collision.
pub proof fn lemma_zero_sprite_draw(pixels: Seq<bool>, x0: int, y0: int, sprite: Seq<u8>)
    requires
        pixels.len() == NUM_PIXELS,
        forall|r: int| 0 <= r < sprite.len() ==> sprite[r] == 0,
    ensures
        draw_spec(pixels, x0, y0, sprite) =~= pixels,
        !draw_collision(pixels, x0, y0, sprite),
{
    assert(forall|j: u8| ((0u8 >> j) & 1) == 0) by (bit_vector);
    assert forall|x: int, y: int| !sprite_covers(x0, y0, sprite, x, y) by {
        if y0 <= y < y0 + sprite.len() {
            assert(sprite[y - y0] == 0);
        }
    }
    assert forall|i: int| 0 <= i < NUM_PIXELS implies draw_spec(pixels, x0, y0, sprite)[i]
        == pixels[i] by {
        lemma_flat_index(i);
    }
}

/// Drawing the same sprite twice at the same origin restores the original
/// pixel state: XOR compositing is self-inverse.
pub proof fn lemma_draw_twice_restores(pixels: Seq<bool>, x0: int, y0: int, sprite: Seq<u8>)
    requires
        pixels.len() == NUM_PIXELS,
    ensures
        draw_spec(draw_spec(pixels, x0, y0, sprite), x0, y0, sprite) =~= pixels,
{
    let once = draw_spec(pixels, x0, y0, sprite);
    assert forall|i: int| 0 <= i < NUM_PIXELS implies draw_spec(once, x0, y0, sprite)[i]
        == pixels[i] by {
        lemma_flat_index(i);
    }
}

/// If the first draw turned on a pixel that the sprite covers, drawing the
/// same sprite again at the same origin reports a collision.
pub proof fn lemma_second_draw_collides(pixels: Seq<bool>, x0: int, y0: int, sprite: Seq<u8>)
    requires
        pixels.len() == NUM_PIXELS,
        exists|x: int, y: int|
            0 <= x < WIDTH && 0 <= y < HEIGHT && !pixels[pixel_index(x, y)]
                && #[trigger] sprite_covers(x0, y0, sprite, x, y),
    ensures
        draw_collision(draw_spec(pixels, x0, y0, sprite), x0, y0, sprite),
{
    let (x, y) = choose|x: int, y: int|
        0 <= x < WIDTH && 0 <= y < HEIGHT && !pixels[pixel_index(x, y)] && #[trigger] sprite_covers(
            x0,
            y0,
            sprite,
            x,
            y,
        );
    lemma_draw_spec_at(pixels, x0, y0, sprite, x, y);
    lemma_collision_witness(draw_spec(pixels, x0, y0, sprite), x0, y0, sprite, x, y);
}

} // verus!
