use raytracer::chunk::{chunk_grid, from_rgb};
use raytracer::framebuffer::Framebuffer;

#[test]
fn framebuffer_starts_zeroed() {
    let fb = Framebuffer::new(8, 4);
    assert_eq!(fb.width, 8);
    assert_eq!(fb.height, 4);
    assert_eq!(fb.as_pixels().len(), 32);
    assert!(fb.as_pixels().iter().all(|&p| p == 0));
}

#[test]
fn set_pixel_writes_only_its_slot() {
    let mut fb = Framebuffer::new(8, 4);
    fb.set_pixel(3, 2, 0x00ab_cdef);
    assert_eq!(fb.get_pixel(3, 2), 0x00ab_cdef);
    let pixels = fb.as_pixels();
    for y in 0..4 {
        for x in 0..8 {
            let expected = if (x, y) == (3, 2) { 0x00ab_cdef } else { 0 };
            assert_eq!(pixels[y * 8 + x], expected);
        }
    }
}

#[test]
fn rendering_every_chunk_fills_every_pixel() {
    // Walk the chunks of an unevenly divided image exactly as a render
    // would, writing a per-pixel color; afterwards every pixel must hold
    // the color of its own coordinates, so no slot was missed or clobbered
    // by a neighbouring chunk.
    let (w, h) = (20usize, 10usize);
    let mut fb = Framebuffer::new(w, h);
    for c in &chunk_grid(w, h, 7, 4) {
        for y in c.offset_y..c.offset_y + c.height {
            for x in c.offset_x..c.offset_x + c.width {
                fb.set_pixel(x, y, from_rgb(x as u8 + 1, y as u8 + 1, 0));
            }
        }
    }
    for y in 0..h {
        for x in 0..w {
            assert_eq!(fb.get_pixel(x, y), from_rgb(x as u8 + 1, y as u8 + 1, 0));
        }
    }
}
