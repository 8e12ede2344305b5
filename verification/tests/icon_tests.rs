use crabsweeper::icon::icon_sizes;

#[test]
fn icon_sizes_are_square_rgba_buffers() {
    let pixels: Vec<u8> = (0..3 * 2).flat_map(|i| [200u8, (i * 40) as u8, 10u8, 255u8]).collect();
    let (small, medium, big) = icon_sizes(&pixels, 3, 2);
    assert_eq!(small.len(), 16 * 16 * 4);
    assert_eq!(medium.len(), 32 * 32 * 4);
    assert_eq!(big.len(), 64 * 64 * 4);
    assert_ne!(small, pixels);
}

#[test]
fn icon_sizes_depend_on_the_pixels_only() {
    let pixels: Vec<u8> = (0..4 * 4).flat_map(|i| [(i * 16) as u8, 0u8, 255u8, 255u8]).collect();
    assert_eq!(icon_sizes(&pixels, 4, 4), icon_sizes(&pixels, 4, 4));
}

#[test]
fn an_icon_size_the_image_already_has_is_the_image() {
    let pixels: Vec<u8> = (0..16 * 16).flat_map(|i| [(i % 256) as u8, 7u8, (255 - i % 256) as u8, 255u8]).collect();
    let (small, medium, _) = icon_sizes(&pixels, 16, 16);
    assert_eq!(small, pixels);
    assert_eq!(medium.len(), 4096);
}

#[test]
fn an_empty_image_gives_blank_icons() {
    let (small, medium, big) = icon_sizes(&Vec::new(), 0, 0);
    assert!(small.iter().all(|b| *b == 0) && small.len() == 1024);
    assert!(medium.iter().all(|b| *b == 0) && medium.len() == 4096);
    assert!(big.iter().all(|b| *b == 0) && big.len() == 16384);
}
