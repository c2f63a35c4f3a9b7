use zglyph::renderer::{shade_str, Renderer};

#[test]
fn renderer_new_is_empty() {
    let r: Renderer<u8> = Renderer::new(3, 2);
    assert_eq!(r.width, 3);
    assert_eq!(r.height, 2);
    assert_eq!(r.buffer.len(), 24);
    assert!(r.buffer.iter().all(|c| c.is_none()));
}

#[test]
fn renderer_direct_index_centres() {
    let r: Renderer<u8> = Renderer::new(3, 2);
    assert_eq!(r.direct_index(0, 0), Some(15));
    assert_eq!(r.direct_index(-3, -2), Some(0));
    assert_eq!(r.direct_index(2, 1), Some(23));
    assert_eq!(r.direct_index(3, 0), None);
    assert_eq!(r.direct_index(0, -3), None);
    assert_eq!(r.direct_index(-4, 0), None);
}

#[test]
fn renderer_scaled_index_doubles() {
    let r: Renderer<u8> = Renderer::new(3, 2);
    assert_eq!(r.scaled_index(1, 0), Some(17));
    assert_eq!(r.scaled_index(-1, -1), Some(1));
    assert_eq!(r.scaled_index(1, 0), r.direct_index(2, 0));
    assert_eq!(r.scaled_index(2, 0), None);
}

#[test]
fn renderer_put_then_pixel() {
    let mut r: Renderer<(u8, u8)> = Renderer::new(4, 4);
    r.put(5, (7, 9));
    assert_eq!(r.pixel(5), Some((7, 9)));
    assert_eq!(r.pixel(6), None);
    let (px, py) = (5 % 8, 5 / 8);
    assert_eq!(r.sample(px, py), Some((7, 9)));
}

#[test]
fn renderer_sample_off_buffer() {
    let mut r: Renderer<u8> = Renderer::new(3, 2);
    r.put(5, 1);
    assert_eq!(r.sample(5, 0), Some(1));
    assert_eq!(r.sample(6, 0), None);
    assert_eq!(r.sample(0, 4), None);
}

#[test]
fn renderer_clear_empties() {
    let mut r: Renderer<u8> = Renderer::new(2, 2);
    r.put(0, 1);
    r.put(15, 2);
    r.clear();
    assert_eq!(r.buffer.len(), 16);
    assert!(r.buffer.iter().all(|c| c.is_none()));
}

#[test]
fn renderer_resize_same_keeps_pixels() {
    let mut r: Renderer<u8> = Renderer::new(2, 2);
    r.put(3, 4);
    assert!(!r.resize(2, 2));
    assert_eq!(r.pixel(3), Some(4));
}

#[test]
fn renderer_resize_new_dims_reallocates() {
    let mut r: Renderer<u8> = Renderer::new(2, 2);
    r.put(3, 4);
    assert!(r.resize(5, 1));
    assert_eq!((r.width, r.height), (5, 1));
    assert_eq!(r.buffer.len(), 20);
    assert!(r.buffer.iter().all(|c| c.is_none()));
}

#[test]
fn renderer_zero_sized() {
    let r: Renderer<u8> = Renderer::new(0, 0);
    assert_eq!(r.buffer.len(), 0);
    assert_eq!(r.direct_index(0, 0), None);
    assert_eq!(r.frame_text(&vec![]), "\u{1b}[H");
}

#[test]
fn renderer_frame_text_layout() {
    let r: Renderer<u8> = Renderer::new(2, 2);
    assert_eq!(r.frame_text(&vec![0, 4, 1, 2]), "\u{1b}[H \u{2588}\n\u{2591}\u{2592}");
}

#[test]
fn renderer_frame_text_clamps_levels() {
    let r: Renderer<u8> = Renderer::new(3, 1);
    assert_eq!(r.frame_text(&vec![3, 7, 0]), "\u{1b}[H\u{2593}\u{2588} ");
}

#[test]
fn renderer_frame_text_length() {
    let r: Renderer<u8> = Renderer::new(4, 3);
    let out = r.frame_text(&vec![1; 12]);
    assert_eq!(out.chars().count(), 3 + 12 + 2);
    assert_eq!(out.matches('\n').count(), 2);
}

#[test]
fn renderer_shade_strings() {
    assert_eq!(shade_str(0), " ");
    assert_eq!(shade_str(1), "\u{2591}");
    assert_eq!(shade_str(2), "\u{2592}");
    assert_eq!(shade_str(3), "\u{2593}");
    assert_eq!(shade_str(4), "\u{2588}");
    assert_eq!(shade_str(100), "\u{2588}");
}

#[test]
fn renderer_every_cell_addressed_once() {
    let r: Renderer<u8> = Renderer::new(3, 2);
    let mut seen = vec![0u32; 24];
    for y in -5..5 {
        for x in -5..5 {
            if let Some(i) = r.direct_index(x, y) {
                seen[i] += 1;
            }
        }
    }
    assert!(seen.iter().all(|&n| n == 1));
}

#[test]
fn renderer_begin_frame_empties() {
    let mut r: Renderer<u8> = Renderer::new(2, 2);
    r.put(3, 4);
    assert!(!r.begin_frame(2, 2));
    assert!(r.buffer.iter().all(|c| c.is_none()));
    r.put(0, 1);
    assert!(r.begin_frame(3, 1));
    assert_eq!(r.buffer.len(), 12);
    assert!(r.buffer.iter().all(|c| c.is_none()));
}

#[test]
fn renderer_side_beyond_i32_is_held() {
    let r: Renderer<u8> = Renderer::new(1usize << 31, 0);
    assert_eq!(r.buffer.len(), 0);
    assert_eq!(r.direct_index(0, 0), None);
    assert_eq!(r.direct_index(5, -5), None);
    assert_eq!(r.sample(0, 0), None);
}
