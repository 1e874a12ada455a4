use raycaster::texture::{Texture, TextureError};

fn encode(width: u32, height: u32, color: png::ColorType, depth: png::BitDepth, data: &[u8]) -> Vec<u8> {
    let mut out = Vec::new();
    {
        let mut encoder = png::Encoder::new(&mut out, width, height);
        encoder.set_color(color);
        encoder.set_depth(depth);
        let mut writer = encoder.write_header().unwrap();
        writer.write_image_data(data).unwrap();
        writer.finish().unwrap();
    }
    out
}

#[test]
fn packs_rgba_samples_row_by_row() {
    let t = Texture::from_rgba_bytes(2, 1, &vec![1, 2, 3, 4, 5, 6, 7, 8]).unwrap();
    assert_eq!((t.width(), t.height()), (2, 1));
    assert_eq!(t.sample(0, 0), 0x0401_0203);
    assert_eq!(t.sample(1, 0), 0x0805_0607);
}

#[test]
fn rejects_mismatched_sample_counts() {
    assert!(Texture::from_rgba_bytes(2, 1, &vec![0; 7]).is_none());
    assert!(Texture::from_rgba_bytes(2, 1, &vec![0; 12]).is_none());
    assert!(Texture::from_rgba_bytes(0, 0, &vec![]).is_none());
    assert!(Texture::from_rgba_bytes(0, 1, &vec![]).is_none());
}

#[test]
fn decodes_an_rgba_png() {
    let data = encode(2, 2, png::ColorType::Rgba, png::BitDepth::Eight, &[
        255, 0, 0, 255, 0, 255, 0, 128, //
        0, 0, 255, 255, 10, 20, 30, 40,
    ]);
    let t = Texture::from_png(&data).unwrap();
    assert_eq!((t.width(), t.height()), (2, 2));
    assert_eq!(t.sample(0, 0), 0xFFFF_0000);
    assert_eq!(t.sample(1, 0), 0x8000_FF00);
    assert_eq!(t.sample(0, 1), 0xFF00_00FF);
    assert_eq!(t.sample(1, 1), 0x280A_141E);
}

#[test]
fn adds_an_opaque_alpha_to_an_rgb_png() {
    let data = encode(1, 1, png::ColorType::Rgb, png::BitDepth::Eight, &[1, 2, 3]);
    let t = Texture::from_png(&data).unwrap();
    assert_eq!(t.sample(0, 0), 0xFF01_0203);
}

#[test]
fn rejects_bytes_that_are_not_png() {
    assert_eq!(Texture::from_png(&vec![1, 2, 3, 4]).err(), Some(TextureError::Decode));
    assert_eq!(Texture::from_png(&vec![]).err(), Some(TextureError::Decode));
}

#[test]
fn rejects_samples_that_are_not_rgba8() {
    let gray = encode(2, 1, png::ColorType::Grayscale, png::BitDepth::Eight, &[0, 255]);
    assert_eq!(Texture::from_png(&gray).err(), Some(TextureError::Format));
    let deep = encode(1, 1, png::ColorType::Rgba, png::BitDepth::Sixteen, &[0; 8]);
    assert_eq!(Texture::from_png(&deep).err(), Some(TextureError::Format));
}
