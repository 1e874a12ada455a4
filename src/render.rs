use vstd::prelude::*;
use vstd::arithmetic::div_mod::{lemma_fundamental_div_mod, lemma_fundamental_div_mod_converse};
use crate::color::rgba;
use crate::texture::Texture;

verus! {

/// The first wall row of a column: the wall is centred, and starts at the
/// top when it is at least as tall as the screen.
pub open spec fn wall_start(screen_height: int, wall_height: int) -> int {
    if wall_height >= screen_height {
        0
    } else {
        (screen_height - wall_height) / 2
    }
}

/// The row just below the wall; it may lie below the screen.
pub open spec fn wall_end(screen_height: int, wall_height: int) -> int {
    wall_start(screen_height, wall_height) + wall_height
}

/// The color of row `y` of a flat-shaded column.
pub open spec fn column_color(
    y: int,
    screen_height: int,
    wall_height: int,
    ceiling: u32,
    wall: u32,
    floor: u32,
) -> u32 {
    if y < wall_start(screen_height, wall_height) {
        ceiling
    } else if y < wall_end(screen_height, wall_height) {
        wall
    } else {
        floor
    }
}

/// Whether buffer index `i` lies in column `x`, between rows `from`
/// (included) and `to` (excluded), of a buffer `width` pixels wide.
pub open spec fn in_column(i: int, x: int, width: int, from: int, to: int) -> bool {
    i % width == x && from <= i / width < to
}

/// Where row `y` of column `x` lies in a row-major buffer.
pub proof fn lemma_pixel_index(x: int, y: int, width: int)
    requires
        0 <= x < width,
        0 <= y,
    ensures
        (y * width + x) % width == x,
        (y * width + x) / width == y,
        0 <= y * width + x,
{
    lemma_fundamental_div_mod_converse(y * width + x, width, y, x);
    assert(0 <= y * width) by (nonlinear_arith)
        requires
            0 <= y,
            0 <= width,
    ;
}

proof fn lemma_index_bound(x: int, y: int, width: int, height: int)
    requires
        0 <= x < width,
        0 <= y < height,
    ensures
        y * width + x < width * height,
{
    assert(y * width + x < width * height) by (nonlinear_arith)
        requires
            0 <= x < width,
            0 <= y < height,
    ;
}

/// Writes one packed pixel at column `x`, row `y`.
pub fn draw_pixel_u32(x: usize, y: usize, color: u32, buffer_width: usize, buffer: &mut [u32])
    requires
        x < buffer_width,
        y * buffer_width + x < old(buffer)@.len(),
    ensures
        final(buffer)@ == old(buffer)@.update(y * buffer_width + x, color),
{
    let _len = buffer.len();
    buffer[y * buffer_width + x] = color;
}

/// Writes one color at column `x`, row `y`.
pub fn draw_pixel(x: usize, y: usize, color: rgba, buffer_width: usize, buffer: &mut [u32])
    requires
        x < buffer_width,
        y * buffer_width + x < old(buffer)@.len(),
    ensures
        final(buffer)@ == old(buffer)@.update(y * buffer_width + x, color.packed()),
{
    draw_pixel_u32(x, y, color.convert_to_u32(), buffer_width, buffer);
}

/// Paints rows `from` up to `to` (excluded) of column `x` in one color.
fn fill_rows(x: usize, from: usize, to: usize, color: u32, buffer_width: usize, buffer: &mut [u32])
    requires
        x < buffer_width,
        to * buffer_width <= old(buffer)@.len(),
    ensures
        final(buffer)@.len() == old(buffer)@.len(),
        forall|i: int|
            0 <= i < old(buffer)@.len() ==> #[trigger] final(buffer)@[i] == if in_column(
                i,
                x as int,
                buffer_width as int,
                from as int,
                to as int,
            ) {
                color
            } else {
                old(buffer)@[i]
            },
{
    let ghost start = buffer@;
    let ghost w = buffer_width as int;
    let mut y: usize = from;
    while y < to
        invariant
            x < buffer_width,
            w == buffer_width as int,
            to * buffer_width <= start.len(),
            buffer@.len() == start.len(),
            from <= y,
            y <= to || y == from,
            forall|i: int|
                0 <= i < start.len() ==> #[trigger] buffer@[i] == if in_column(
                    i,
                    x as int,
                    w,
                    from as int,
                    y as int,
                ) {
                    color
                } else {
                    start[i]
                },
        decreases to - y,
    {
        proof {
            lemma_index_bound(x as int, y as int, w, to as int);
            lemma_pixel_index(x as int, y as int, w);
        }
        let ghost idx = y * w + x;
        draw_pixel_u32(x, y, color, buffer_width, buffer);
        proof {
            assert forall|i: int| 0 <= i < start.len() implies #[trigger] buffer@[i] == if in_column(
                i,
                x as int,
                w,
                from as int,
                y + 1,
            ) {
                color
            } else {
                start[i]
            } by {
                if i != idx && i % w == x && i / w == y {
                    lemma_fundamental_div_mod(i, w);
                    assert(w * (i / w) == y * w) by (nonlinear_arith)
                        requires
                            i / w == y,
                    ;
                }
            }
        }
        y = y + 1;
    }
}

/// Draws column `x` of the frame buffer: ceiling above a centred wall
/// `wall_height` rows tall, floor below it, all clipped to the screen.
pub fn draw_line(
    x: usize,
    wall_height: usize,
    ceiling_color: rgba,
    wall_color: rgba,
    floor_color: rgba,
    buffer_width: usize,
    buffer_height: usize,
    buffer: &mut [u32],
)
    requires
        x < buffer_width,
        buffer_width * buffer_height <= old(buffer)@.len(),
    ensures
        final(buffer)@.len() == old(buffer)@.len(),
        forall|i: int|
            0 <= i < old(buffer)@.len() ==> #[trigger] final(buffer)@[i] == if in_column(
                i,
                x as int,
                buffer_width as int,
                0,
                buffer_height as int,
            ) {
                column_color(
                    i / buffer_width as int,
                    buffer_height as int,
                    wall_height as int,
                    ceiling_color.packed(),
                    wall_color.packed(),
                    floor_color.packed(),
                )
            } else {
                old(buffer)@[i]
            },
        forall|y: int|
            0 <= y < buffer_height ==> #[trigger] final(buffer)@[y * buffer_width + x]
                == column_color(
                y,
                buffer_height as int,
                wall_height as int,
                ceiling_color.packed(),
                wall_color.packed(),
                floor_color.packed(),
            ),
{
    let wall_color_u32 = wall_color.convert_to_u32();
    let ceiling_color_u32 = ceiling_color.convert_to_u32();
    let floor_color_u32 = floor_color.convert_to_u32();

    let wall_start = buffer_height.saturating_sub(wall_height) / 2;
    let wall_end = wall_start + wall_height;
    let visible_end = if wall_end < buffer_height {
        wall_end
    } else {
        buffer_height
    };
    proof {
        assert(buffer_height * buffer_width == buffer_width * buffer_height) by (nonlinear_arith);
        assert(wall_start * buffer_width <= buffer_height * buffer_width) by (nonlinear_arith)
            requires
                wall_start <= buffer_height,
        ;
        assert(visible_end * buffer_width <= buffer_height * buffer_width) by (nonlinear_arith)
            requires
                visible_end <= buffer_height,
        ;
    }
    fill_rows(x, 0, wall_start, ceiling_color_u32, buffer_width, buffer);
    fill_rows(x, wall_start, visible_end, wall_color_u32, buffer_width, buffer);
    fill_rows(x, wall_end, buffer_height, floor_color_u32, buffer_width, buffer);
    proof {
        assert forall|y: int|
            0 <= y < buffer_height implies #[trigger] buffer@[y * buffer_width + x] == column_color(
            y,
            buffer_height as int,
            wall_height as int,
            ceiling_color.packed(),
            wall_color.packed(),
            floor_color.packed(),
        ) by {
            lemma_pixel_index(x as int, y, buffer_width as int);
            lemma_index_bound(x as int, y, buffer_width as int, buffer_height as int);
            assert(buffer_height * buffer_width == buffer_width * buffer_height) by (nonlinear_arith);
        }
    }
}

/// A texture-U coordinate is held as a 16-bit fraction: `u_frac` stands
/// for `u_frac / TEX_U_ONE`, which always lies in [0, 1).
pub const TEX_U_ONE: u32 = 0x1_0000;

/// The texture column for a texture-U coordinate.
pub open spec fn tex_column_of(u_frac: int, tex_width: int) -> int {
    u_frac * tex_width / (TEX_U_ONE as int)
}

/// How many rows of a wall taller than the screen lie above its top row.
pub open spec fn hidden_rows(screen_height: int, wall_height: int) -> int {
    if wall_height > screen_height {
        (wall_height - screen_height) / 2
    } else {
        0
    }
}

/// The texture row sampled at screen row `y` of a wall: the row's place
/// within the whole wall, scaled to the texture's height.
pub open spec fn tex_row_of(y: int, screen_height: int, wall_height: int, tex_height: int) -> int {
    (y + hidden_rows(screen_height, wall_height) - wall_start(screen_height, wall_height))
        * tex_height / wall_height
}

/// Whether screen row `y` shows the wall.
pub open spec fn is_wall_row(y: int, screen_height: int, wall_height: int) -> bool {
    wall_start(screen_height, wall_height) <= y < wall_end(screen_height, wall_height) && y
        < screen_height
}

/// The color of row `y` of a textured column.
pub open spec fn textured_color(
    y: int,
    screen_height: int,
    wall_height: int,
    ceiling: u32,
    floor: u32,
    tex: Texture,
    u_frac: int,
) -> u32 {
    if y < wall_start(screen_height, wall_height) {
        ceiling
    } else if y < wall_end(screen_height, wall_height) {
        tex.pixel_at(
            tex_column_of(u_frac, tex.spec_width() as int),
            tex_row_of(y, screen_height, wall_height, tex.spec_height() as int),
        )
    } else {
        floor
    }
}

/// Texture sampling stays inside the texture: for every texture-U in
/// [0, 1) the column lies in [0, width), and for every wall height, also
/// one taller than the screen, each visible wall row samples a row in
/// [0, height).
pub proof fn lemma_texture_indices_in_bounds(
    u_frac: u16,
    tex_width: nat,
    tex_height: nat,
    y: int,
    screen_height: nat,
    wall_height: nat,
)
    requires
        tex_width > 0,
        tex_height > 0,
        is_wall_row(y, screen_height as int, wall_height as int),
    ensures
        0 <= tex_column_of(u_frac as int, tex_width as int) < tex_width,
        0 <= tex_row_of(y, screen_height as int, wall_height as int, tex_height as int) < tex_height,
{
    let u = u_frac as int;
    let tw = tex_width as int;
    assert(0 <= u * tw / 0x1_0000 < tw) by (nonlinear_arith)
        requires
            0 <= u < 0x1_0000,
            tw > 0,
    ;
    let h = screen_height as int;
    let wh = wall_height as int;
    let th = tex_height as int;
    let k = y + hidden_rows(h, wh) - wall_start(h, wh);
    assert(0 <= k < wh);
    assert(0 <= k * th / wh < th) by (nonlinear_arith)
        requires
            0 <= k < wh,
            th > 0,
    ;
}

/// The texture column for the texture-U coordinate `u_frac / TEX_U_ONE`.
pub fn texture_column(u_frac: u16, tex_width: usize) -> (c: usize)
    requires
        tex_width > 0,
    ensures
        c == tex_column_of(u_frac as int, tex_width as int),
        c < tex_width,
{
    proof {
        lemma_texture_indices_in_bounds(u_frac, tex_width as nat, 1, 0, 1, 1);
        assert((u_frac as int) * (tex_width as int) < 0x1_0000_0000_0000_0000_0000_0000_0000_0000)
            by (nonlinear_arith)
            requires
                u_frac < 0x1_0000,
                tex_width <= usize::MAX,
                usize::MAX < 0x1_0000_0000_0000_0000,
        ;
    }
    ((u_frac as u128) * (tex_width as u128) / (TEX_U_ONE as u128)) as usize
}

/// The texture row sampled at screen row `y` of a wall `wall_height` rows
/// tall on a screen `screen_height` rows tall.
pub fn texture_row(y: usize, screen_height: usize, wall_height: usize, tex_height: usize) -> (r: usize)
    requires
        tex_height > 0,
        is_wall_row(y as int, screen_height as int, wall_height as int),
    ensures
        r == tex_row_of(y as int, screen_height as int, wall_height as int, tex_height as int),
        r < tex_height,
{
    proof {
        lemma_texture_indices_in_bounds(
            0,
            1,
            tex_height as nat,
            y as int,
            screen_height as nat,
            wall_height as nat,
        );
    }
    let wall_start = screen_height.saturating_sub(wall_height) / 2;
    let hidden = if wall_height > screen_height {
        (wall_height - screen_height) / 2
    } else {
        0
    };
    let offset = y + hidden - wall_start;
    proof {
        assert((offset as int) * (tex_height as int) < 0x1_0000_0000_0000_0000_0000_0000_0000_0000)
            by (nonlinear_arith)
            requires
                offset <= usize::MAX,
                tex_height <= usize::MAX,
                usize::MAX < 0x1_0000_0000_0000_0000,
        ;
    }
    ((offset as u128) * (tex_height as u128) / (wall_height as u128)) as usize
}

/// Draws column `x` of the frame buffer with a textured wall: ceiling above
/// a centred wall `wall_height` rows tall, floor below it. The wall samples
/// the texture column given by the texture-U coordinate `u_frac`, and maps
/// the whole wall, visible or not, onto the texture's rows.
pub fn draw_textured_line(
    x: usize,
    wall_height: usize,
    ceiling_color: rgba,
    floor_color: rgba,
    texture: &Texture,
    u_frac: u16,
    buffer_width: usize,
    buffer_height: usize,
    buffer: &mut [u32],
)
    requires
        x < buffer_width,
        buffer_width * buffer_height <= old(buffer)@.len(),
    ensures
        final(buffer)@.len() == old(buffer)@.len(),
        forall|i: int|
            0 <= i < old(buffer)@.len() ==> #[trigger] final(buffer)@[i] == if in_column(
                i,
                x as int,
                buffer_width as int,
                0,
                buffer_height as int,
            ) {
                textured_color(
                    i / buffer_width as int,
                    buffer_height as int,
                    wall_height as int,
                    ceiling_color.packed(),
                    floor_color.packed(),
                    *texture,
                    u_frac as int,
                )
            } else {
                old(buffer)@[i]
            },
        forall|y: int|
            0 <= y < buffer_height ==> #[trigger] final(buffer)@[y * buffer_width + x]
                == textured_color(
                y,
                buffer_height as int,
                wall_height as int,
                ceiling_color.packed(),
                floor_color.packed(),
                *texture,
                u_frac as int,
            ),
{
    proof {
        use_type_invariant(texture);
    }
    let ceiling_color_u32 = ceiling_color.convert_to_u32();
    let floor_color_u32 = floor_color.convert_to_u32();
    let tex_col = texture_column(u_frac, texture.width());

    let start_row = buffer_height.saturating_sub(wall_height) / 2;
    let end_row = start_row + wall_height;
    let visible_end = if end_row < buffer_height {
        end_row
    } else {
        buffer_height
    };
    proof {
        assert(buffer_height * buffer_width == buffer_width * buffer_height) by (nonlinear_arith);
        assert(start_row * buffer_width <= buffer_height * buffer_width) by (nonlinear_arith)
            requires
                start_row <= buffer_height,
        ;
        assert(visible_end * buffer_width <= buffer_height * buffer_width) by (nonlinear_arith)
            requires
                visible_end <= buffer_height,
        ;
    }
    let ghost w = buffer_width as int;
    fill_rows(x, 0, start_row, ceiling_color_u32, buffer_width, buffer);
    let ghost start = buffer@;
    let mut y: usize = start_row;
    while y < visible_end
        invariant
            texture.wf(),
            x < buffer_width,
            w == buffer_width as int,
            tex_col == tex_column_of(u_frac as int, texture.spec_width() as int),
            tex_col < texture.spec_width(),
            start_row == wall_start(buffer_height as int, wall_height as int),
            end_row == wall_end(buffer_height as int, wall_height as int),
            visible_end <= buffer_height,
            visible_end <= end_row,
            visible_end * buffer_width <= start.len(),
            buffer@.len() == start.len(),
            start_row <= y,
            y <= visible_end || y == start_row,
            forall|i: int|
                0 <= i < start.len() ==> #[trigger] buffer@[i] == if in_column(
                    i,
                    x as int,
                    w,
                    start_row as int,
                    y as int,
                ) {
                    texture.pixel_at(
                        tex_col as int,
                        tex_row_of(
                            i / w,
                            buffer_height as int,
                            wall_height as int,
                            texture.spec_height() as int,
                        ),
                    )
                } else {
                    start[i]
                },
        decreases visible_end - y,
    {
        let tex_row = texture_row(y, buffer_height, wall_height, texture.height());
        let pixel = texture.sample(tex_col, tex_row);
        proof {
            lemma_index_bound(x as int, y as int, w, visible_end as int);
            lemma_pixel_index(x as int, y as int, w);
        }
        let ghost idx = y * w + x;
        draw_pixel_u32(x, y, pixel, buffer_width, buffer);
        proof {
            assert forall|i: int| 0 <= i < start.len() implies #[trigger] buffer@[i] == if in_column(
                i,
                x as int,
                w,
                start_row as int,
                y + 1,
            ) {
                texture.pixel_at(
                    tex_col as int,
                    tex_row_of(i / w, buffer_height as int, wall_height as int, texture.spec_height() as int),
                )
            } else {
                start[i]
            } by {
                if i != idx && i % w == x && i / w == y {
                    lemma_fundamental_div_mod(i, w);
                    assert(w * (i / w) == y * w) by (nonlinear_arith)
                        requires
                            i / w == y,
                    ;
                }
            }
        }
        y = y + 1;
    }
    fill_rows(x, end_row, buffer_height, floor_color_u32, buffer_width, buffer);
    proof {
        assert forall|yy: int|
            0 <= yy < buffer_height implies #[trigger] buffer@[yy * buffer_width + x] == textured_color(
            yy,
            buffer_height as int,
            wall_height as int,
            ceiling_color.packed(),
            floor_color.packed(),
            *texture,
            u_frac as int,
        ) by {
            lemma_pixel_index(x as int, yy, buffer_width as int);
            lemma_index_bound(x as int, yy, buffer_width as int, buffer_height as int);
            assert(buffer_height * buffer_width == buffer_width * buffer_height) by (nonlinear_arith);
        }
    }
}

/// Whether buffer index `i` lies in the top-left `width` by `height`
/// corner of a buffer `buffer_width` pixels wide.
pub open spec fn in_corner(i: int, buffer_width: int, width: int, height: int) -> bool {
    i % buffer_width < width && i / buffer_width < height
}

/// Copies a texture, pixel for pixel, into the top-left corner of the
/// frame buffer.
pub fn draw_texture(texture: &Texture, buffer_width: usize, buffer: &mut [u32])
    requires
        texture.spec_width() <= buffer_width,
        texture.spec_height() * buffer_width <= old(buffer)@.len(),
    ensures
        final(buffer)@.len() == old(buffer)@.len(),
        forall|i: int|
            0 <= i < old(buffer)@.len() ==> #[trigger] final(buffer)@[i] == if in_corner(
                i,
                buffer_width as int,
                texture.spec_width() as int,
                texture.spec_height() as int,
            ) {
                texture.pixel_at(i % buffer_width as int, i / buffer_width as int)
            } else {
                old(buffer)@[i]
            },
{
    proof {
        use_type_invariant(texture);
    }
    let ghost start = buffer@;
    let ghost w = buffer_width as int;
    let tw = texture.width();
    let th = texture.height();
    let mut y: usize = 0;
    while y < th
        invariant
            texture.wf(),
            tw == texture.spec_width(),
            th == texture.spec_height(),
            0 < tw <= buffer_width,
            w == buffer_width as int,
            th * buffer_width <= start.len(),
            buffer@.len() == start.len(),
            y <= th,
            forall|i: int|
                0 <= i < start.len() ==> #[trigger] buffer@[i] == if in_corner(i, w, tw as int, y as int) {
                    texture.pixel_at(i % w, i / w)
                } else {
                    start[i]
                },
        decreases th - y,
    {
        let mut x: usize = 0;
        while x < tw
            invariant
                texture.wf(),
                tw == texture.spec_width(),
                th == texture.spec_height(),
                0 < tw <= buffer_width,
                w == buffer_width as int,
                th * buffer_width <= start.len(),
                buffer@.len() == start.len(),
                y < th,
                x <= tw,
                forall|i: int|
                    0 <= i < start.len() ==> #[trigger] buffer@[i] == if in_corner(i, w, tw as int, y as int)
                        || (i / w == y && i % w < x) {
                        texture.pixel_at(i % w, i / w)
                    } else {
                        start[i]
                    },
            decreases tw - x,
        {
            let pixel = texture.sample(x, y);
            proof {
                lemma_index_bound(x as int, y as int, w, th as int);
                lemma_pixel_index(x as int, y as int, w);
            }
            let ghost idx = y * w + x;
            draw_pixel_u32(x, y, pixel, buffer_width, buffer);
            proof {
                assert forall|i: int| 0 <= i < start.len() implies #[trigger] buffer@[i] == if in_corner(
                    i,
                    w,
                    tw as int,
                    y as int,
                ) || (i / w == y && i % w < x + 1) {
                    texture.pixel_at(i % w, i / w)
                } else {
                    start[i]
                } by {
                    if i != idx && i % w == x && i / w == y {
                        lemma_fundamental_div_mod(i, w);
                        assert(w * (i / w) == y * w) by (nonlinear_arith)
                            requires
                                i / w == y,
                        ;
                    }
                }
            }
            x = x + 1;
        }
        y = y + 1;
    }
}

/// A column whose wall is as tall as the screen is all wall; a column with
/// no wall is ceiling down to half the screen's height and floor below.
pub proof fn lemma_column_split(screen_height: nat, ceiling: u32, wall: u32, floor: u32)
    ensures
        wall_start(screen_height as int, screen_height as int) == 0,
        wall_end(screen_height as int, screen_height as int) == screen_height,
        forall|y: int|
            0 <= y < screen_height ==> #[trigger] column_color(
                y,
                screen_height as int,
                screen_height as int,
                ceiling,
                wall,
                floor,
            ) == wall,
        wall_start(screen_height as int, 0) == screen_height / 2,
        wall_end(screen_height as int, 0) == screen_height / 2,
        forall|y: int|
            0 <= y < screen_height ==> #[trigger] column_color(
                y,
                screen_height as int,
                0,
                ceiling,
                wall,
                floor,
            ) == if y < screen_height / 2 {
                ceiling
            } else {
                floor
            },
{
}

} // verus!
