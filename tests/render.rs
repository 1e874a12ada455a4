use raycaster::color::rgba;
use raycaster::render::{
    draw_line, draw_pixel, draw_pixel_u32, draw_texture, draw_textured_line, texture_column,
    texture_row,
};
use raycaster::texture::Texture;

const W: usize = 3;
const H: usize = 10;
const MARK: u32 = 0xDEAD_BEEF;

fn colors() -> (rgba, rgba, rgba) {
    (rgba::new(0, 0, 155, 255), rgba::new(0, 115, 0, 255), rgba::new(155, 0, 0, 255))
}

fn column(buffer: &[u32], x: usize) -> Vec<u32> {
    (0..H).map(|y| buffer[y * W + x]).collect()
}

#[test]
fn pixels_land_at_row_times_width_plus_column() {
    let mut buffer = vec![0u32; 12];
    draw_pixel_u32(2, 1, 7, 4, &mut buffer);
    draw_pixel(0, 2, rgba::new(1, 2, 3, 4), 4, &mut buffer);
    assert_eq!(buffer[6], 7);
    assert_eq!(buffer[8], 0x0401_0203);
    assert_eq!(buffer.iter().filter(|&&p| p != 0).count(), 2);
}

#[test]
fn line_splits_ceiling_wall_and_floor() {
    let (c, w, f) = colors();
    let (cu, wu, fu) = (c.convert_to_u32(), w.convert_to_u32(), f.convert_to_u32());
    let mut buffer = vec![MARK; W * H];
    draw_line(1, 4, c, w, f, W, H, &mut buffer);
    assert_eq!(column(&buffer, 1), vec![cu, cu, cu, wu, wu, wu, wu, fu, fu, fu]);
    assert_eq!(column(&buffer, 0), vec![MARK; H]);
    assert_eq!(column(&buffer, 2), vec![MARK; H]);
}

#[test]
fn odd_gap_puts_the_extra_row_below() {
    let (c, w, f) = colors();
    let (cu, wu, fu) = (c.convert_to_u32(), w.convert_to_u32(), f.convert_to_u32());
    let mut buffer = vec![MARK; W * H];
    draw_line(0, 5, c, w, f, W, H, &mut buffer);
    assert_eq!(column(&buffer, 0), vec![cu, cu, wu, wu, wu, wu, wu, fu, fu, fu]);
}

#[test]
fn full_height_wall_leaves_no_ceiling_or_floor() {
    let (c, w, f) = colors();
    let mut buffer = vec![MARK; W * H];
    draw_line(2, H, c, w, f, W, H, &mut buffer);
    assert_eq!(column(&buffer, 2), vec![w.convert_to_u32(); H]);
}

#[test]
fn wall_taller_than_the_screen_fills_the_column() {
    let (c, w, f) = colors();
    let mut buffer = vec![MARK; W * H];
    draw_line(2, 1000, c, w, f, W, H, &mut buffer);
    assert_eq!(column(&buffer, 2), vec![w.convert_to_u32(); H]);
}

#[test]
fn no_wall_splits_ceiling_and_floor_at_half_height() {
    let (c, w, f) = colors();
    let (cu, fu) = (c.convert_to_u32(), f.convert_to_u32());
    let mut buffer = vec![MARK; W * H];
    draw_line(0, 0, c, w, f, W, H, &mut buffer);
    let col = column(&buffer, 0);
    assert_eq!(&col[..H / 2], &vec![cu; H / 2][..]);
    assert_eq!(&col[H / 2..], &vec![fu; H - H / 2][..]);
    let mut odd = vec![MARK; 7];
    draw_line(0, 0, c, w, f, 1, 7, &mut odd);
    assert_eq!(odd, vec![cu, cu, cu, fu, fu, fu, fu]);
}

#[test]
fn texture_column_scales_the_fraction() {
    assert_eq!(texture_column(0, 64), 0);
    assert_eq!(texture_column(0x8000, 64), 32);
    assert_eq!(texture_column(0x4000, 10), 2);
    assert_eq!(texture_column(u16::MAX, 64), 63);
    assert_eq!(texture_column(u16::MAX, 1), 0);
}

#[test]
fn texture_row_maps_the_visible_wall() {
    // A 4-row wall centred on a 10-row screen starts at row 3.
    assert_eq!(texture_row(3, 10, 4, 8), 0);
    assert_eq!(texture_row(4, 10, 4, 8), 2);
    assert_eq!(texture_row(6, 10, 4, 8), 6);
    // A 20-row wall on a 10-row screen hides 5 rows above the top.
    assert_eq!(texture_row(0, 10, 20, 8), 2);
    assert_eq!(texture_row(9, 10, 20, 8), 5);
}

#[test]
fn texture_indices_stay_inside_the_texture() {
    for tw in [1usize, 2, 7, 64, 1000] {
        for u in [0u16, 1, 0x7FFF, 0x8000, 0xFFFE, 0xFFFF] {
            assert!(texture_column(u, tw) < tw);
        }
    }
    for th in [1usize, 3, 64] {
        for wall in [1usize, 5, 10, 11, 37, 10_000] {
            let h = 10usize;
            let start = h.saturating_sub(wall) / 2;
            let end = (start + wall).min(h);
            for y in start..end {
                assert!(texture_row(y, h, wall, th) < th);
            }
        }
    }
}

fn checker() -> Texture {
    // 2 by 2: red, green / blue, white.
    let bytes = vec![
        255, 0, 0, 255, 0, 255, 0, 255, //
        0, 0, 255, 255, 255, 255, 255, 255,
    ];
    Texture::from_rgba_bytes(2, 2, &bytes).unwrap()
}

#[test]
fn textured_line_samples_the_texture() {
    let (c, _, f) = colors();
    let (cu, fu) = (c.convert_to_u32(), f.convert_to_u32());
    let tex = checker();
    let (red, blue) = (0xFFFF_0000u32, 0xFF00_00FFu32);
    let (green, white) = (0xFF00_FF00u32, 0xFFFF_FFFFu32);
    let mut buffer = vec![MARK; W * H];
    draw_textured_line(1, 4, c, f, &tex, 0, W, H, &mut buffer);
    assert_eq!(column(&buffer, 1), vec![cu, cu, cu, red, red, blue, blue, fu, fu, fu]);
    draw_textured_line(0, 4, c, f, &tex, 0xC000, W, H, &mut buffer);
    assert_eq!(column(&buffer, 0), vec![cu, cu, cu, green, green, white, white, fu, fu, fu]);
    assert_eq!(column(&buffer, 2), vec![MARK; H]);
}

#[test]
fn tall_textured_wall_skips_the_hidden_part() {
    let (c, _, f) = colors();
    let tex = checker();
    let (red, blue) = (0xFFFF_0000u32, 0xFF00_00FFu32);
    let mut buffer = vec![MARK; W * H];
    draw_textured_line(0, 40, c, f, &tex, 0, W, H, &mut buffer);
    // Rows 15..25 of a 40-row wall: the upper half is red, the lower blue.
    assert_eq!(column(&buffer, 0), vec![red, red, red, red, red, blue, blue, blue, blue, blue]);
}

#[test]
fn texture_is_copied_into_the_top_left_corner() {
    let tex = checker();
    let mut buffer = vec![MARK; W * H];
    draw_texture(&tex, W, &mut buffer);
    assert_eq!(&buffer[..6], &[0xFFFF_0000, 0xFF00_FF00, MARK, 0xFF00_00FF, 0xFFFF_FFFF, MARK]);
    assert!(buffer[6..].iter().all(|&p| p == MARK));
}
