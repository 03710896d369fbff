use deltatune::raster::{blend_pixel, fill_background, mix, pack_bgra_to_xrgb};

#[test]
fn background_is_black_with_the_configured_alpha() {
    let mut canvas = vec![9u8; 12];
    fill_background(&mut canvas, false, 500);
    // 0.5 * 255 = 127.5 rounds to 128.
    assert_eq!(canvas, vec![0, 0, 0, 128, 0, 0, 0, 128, 0, 0, 0, 128]);
    fill_background(&mut canvas, false, 0);
    assert_eq!(canvas, vec![0, 0, 0, 0, 0, 0, 0, 0, 0, 0, 0, 0]);
    fill_background(&mut canvas, false, 1000);
    assert_eq!(canvas, vec![0, 0, 0, 255, 0, 0, 0, 255, 0, 0, 0, 255]);
    fill_background(&mut canvas, false, 250);
    // 0.25 * 255 = 63.75 rounds to 64.
    assert_eq!(canvas[3], 64);
    fill_background(&mut canvas, false, 2);
    // 0.002 * 255 = 0.51 rounds to 1.
    assert_eq!(canvas[3], 1);
    fill_background(&mut canvas, false, 1);
    assert_eq!(canvas[3], 0);
}

#[test]
fn background_opacity_is_limited_to_one() {
    let mut canvas = vec![9u8; 4];
    fill_background(&mut canvas, false, 1001);
    assert_eq!(canvas, vec![0, 0, 0, 255]);
    fill_background(&mut canvas, false, u16::MAX);
    assert_eq!(canvas, vec![0, 0, 0, 255]);
}

#[test]
fn forced_opaque_background_ignores_the_opacity() {
    let mut canvas = vec![9u8; 8];
    fill_background(&mut canvas, true, 0);
    assert_eq!(canvas, vec![0, 0, 0, 255, 0, 0, 0, 255]);
}

#[test]
fn bytes_after_the_last_whole_pixel_are_left() {
    let mut canvas = vec![9u8; 7];
    fill_background(&mut canvas, true, 0);
    assert_eq!(canvas, vec![0, 0, 0, 255, 9, 9, 9]);
    let mut tiny = vec![9u8; 3];
    fill_background(&mut tiny, true, 0);
    assert_eq!(tiny, vec![9, 9, 9]);
    let mut none: Vec<u8> = Vec::new();
    fill_background(&mut none, true, 0);
    assert!(none.is_empty());
}

#[test]
fn opaque_source_at_full_opacity_replaces_the_pixel() {
    let mut canvas = vec![0u8, 0, 0, 0];
    blend_pixel(&mut canvas, 0, 10, 20, 30, 255, 1000);
    assert_eq!(canvas, vec![30, 20, 10, 255]);
    let mut busy = vec![200u8, 100, 50, 77];
    blend_pixel(&mut busy, 0, 255, 0, 128, 255, 1000);
    assert_eq!(busy, vec![128, 0, 255, 255]);
}

#[test]
fn transparent_source_or_text_leaves_the_pixel() {
    let mut canvas = vec![200u8, 100, 50, 77];
    blend_pixel(&mut canvas, 0, 10, 20, 30, 0, 1000);
    assert_eq!(canvas, vec![200, 100, 50, 77]);
    blend_pixel(&mut canvas, 0, 10, 20, 30, 255, 0);
    assert_eq!(canvas, vec![200, 100, 50, 77]);
}

#[test]
fn half_covering_source_mixes_in_halves() {
    // Source alpha 128/255 at full opacity over a transparent black pixel.
    let mut canvas = vec![0u8, 0, 0, 0];
    blend_pixel(&mut canvas, 0, 255, 100, 0, 128, 1000);
    // 255 * 128/255 = 128; 100 * 128/255 = 50.2; alpha 255 * 128/255 = 128.
    assert_eq!(canvas, vec![0, 50, 128, 128]);
    // Full coverage at half opacity over white, opaque.
    let mut white = vec![255u8, 255, 255, 255];
    blend_pixel(&mut white, 0, 0, 0, 0, 255, 500);
    // 255 * 0.5 = 127.5 rounds to 128; the alpha stays 255.
    assert_eq!(white, vec![128, 128, 128, 255]);
    // Coverage 100/255 at opacity 0.3 over (10, 200, 30, 40): sa = 30000/255000.
    let mut mixed = vec![10u8, 200, 30, 40];
    blend_pixel(&mut mixed, 0, 250, 60, 90, 100, 300);
    // blue: (90*30000 + 10*225000)/255000 = 19.41; green: (60*30000 + 200*225000)/255000 = 183.5;
    // red: (250*30000 + 30*225000)/255000 = 55.88; alpha: (255*30000 + 40*225000)/255000 = 65.29.
    assert_eq!(mixed, vec![19, 184, 56, 65]);
}

#[test]
fn blending_touches_only_its_pixel() {
    let mut canvas = vec![1u8, 2, 3, 4, 5, 6, 7, 8, 9, 10, 11, 12];
    blend_pixel(&mut canvas, 4, 10, 20, 30, 255, 1000);
    assert_eq!(canvas, vec![1, 2, 3, 4, 30, 20, 10, 255, 9, 10, 11, 12]);
}

#[test]
fn channel_mix_rounds_to_nearest() {
    assert_eq!(mix(255, 0, 255_000), 255);
    assert_eq!(mix(255, 0, 0), 0);
    assert_eq!(mix(0, 255, 127_500), 128);
    assert_eq!(mix(100, 200, 63_750), 175);
    assert_eq!(mix(1, 0, 127_499), 0);
    assert_eq!(mix(1, 0, 127_500), 1);
}

#[test]
fn packing_puts_red_green_blue_in_the_low_bytes() {
    let canvas = vec![0x11u8, 0x22, 0x33, 0x44, 0xff, 0x00, 0x80, 0x00];
    let mut packed: Vec<u32> = vec![7; 5];
    pack_bgra_to_xrgb(&canvas, &mut packed);
    assert_eq!(packed, vec![0x0033_2211, 0x0080_00ff]);
}

#[test]
fn packing_leaves_out_a_trailing_partial_pixel() {
    let canvas = vec![1u8, 2, 3, 4, 5, 6, 7];
    let mut packed: Vec<u32> = Vec::new();
    pack_bgra_to_xrgb(&canvas, &mut packed);
    assert_eq!(packed, vec![0x0003_0201]);
    pack_bgra_to_xrgb(&[], &mut packed);
    assert!(packed.is_empty());
}
