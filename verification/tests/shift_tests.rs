use channel_shift::shift::{apply_channel_shift, shift_channel, strip_alpha};
use channel_shift::PixelBuffer;

#[test]
fn test_shift_channel_red_right() {
    let mut img = PixelBuffer::new(3, 1);
    img.put_pixel(0, 0, [10, 0, 0, 255]);
    img.put_pixel(1, 0, [20, 0, 0, 255]);
    img.put_pixel(2, 0, [30, 0, 0, 255]);

    let shifted = shift_channel(&img, 1, 0, 0);

    assert_eq!(shifted.get_pixel(1, 0)[0], 10);
    assert_eq!(shifted.get_pixel(2, 0)[0], 20);
}

#[test]
fn test_shift_channel_blue_down() {
    let mut img = PixelBuffer::new(1, 3);
    img.put_pixel(0, 0, [0, 0, 10, 255]);
    img.put_pixel(0, 1, [0, 0, 20, 255]);
    img.put_pixel(0, 2, [0, 0, 30, 255]);

    let shifted = shift_channel(&img, 0, 1, 2);

    assert_eq!(shifted.get_pixel(0, 1)[2], 10);
    assert_eq!(shifted.get_pixel(0, 2)[2], 20);
}

fn sample_image() -> PixelBuffer {
    let mut img = PixelBuffer::new(3, 2);
    for y in 0..2u32 {
        for x in 0..3u32 {
            let base = (10 * (y * 3 + x)) as u8;
            img.put_pixel(x, y, [base, base + 1, base + 2, base + 3]);
        }
    }
    img
}

#[test]
fn test_zero_offset_is_identity() {
    let img = sample_image();
    for c in 0..4usize {
        let shifted = shift_channel(&img, 0, 0, c);
        for y in 0..2u32 {
            for x in 0..3u32 {
                assert_eq!(shifted.get_pixel(x, y), img.get_pixel(x, y));
            }
        }
    }
}

#[test]
fn test_non_target_channels_unchanged() {
    let img = sample_image();
    let shifted = shift_channel(&img, 1, 1, 1);
    for y in 0..2u32 {
        for x in 0..3u32 {
            let before = img.get_pixel(x, y);
            let after = shifted.get_pixel(x, y);
            assert_eq!(after[0], before[0]);
            assert_eq!(after[2], before[2]);
            assert_eq!(after[3], before[3]);
        }
    }
}

#[test]
fn test_out_of_bounds_source_keeps_value() {
    let mut img = PixelBuffer::new(3, 1);
    img.put_pixel(0, 0, [10, 0, 0, 255]);
    img.put_pixel(1, 0, [20, 0, 0, 255]);
    img.put_pixel(2, 0, [30, 0, 0, 255]);

    // x = 0 has source x = -1, which is out of bounds: the value stays.
    let shifted = shift_channel(&img, 1, 0, 0);
    assert_eq!(shifted.get_pixel(0, 0)[0], 10);
}

#[test]
fn test_in_bounds_source_with_negative_offset() {
    let mut img = PixelBuffer::new(3, 1);
    img.put_pixel(0, 0, [10, 0, 0, 255]);
    img.put_pixel(1, 0, [20, 0, 0, 255]);
    img.put_pixel(2, 0, [30, 0, 0, 255]);

    // dx = -1 reads each pixel's red from its right-hand neighbour.
    let shifted = shift_channel(&img, -1, 0, 0);
    assert_eq!(shifted.get_pixel(0, 0)[0], 20);
    assert_eq!(shifted.get_pixel(1, 0)[0], 30);
    assert_eq!(shifted.get_pixel(2, 0)[0], 30);
}

#[test]
fn test_dimensions_preserved() {
    let img = sample_image();
    let shifted = shift_channel(&img, 7, -9, 2);
    assert_eq!(shifted.width, img.width);
    assert_eq!(shifted.height, img.height);

    let composed = apply_channel_shift(&img, 2);
    assert_eq!(composed.width, img.width);
    assert_eq!(composed.height, img.height);
}

#[test]
fn test_input_not_mutated() {
    let img = sample_image();
    let _ = shift_channel(&img, 1, 1, 0);
    let _ = apply_channel_shift(&img, 1);
    let _ = strip_alpha(&img);
    for y in 0..2u32 {
        for x in 0..3u32 {
            let base = (10 * (y * 3 + x)) as u8;
            assert_eq!(img.get_pixel(x, y), [base, base + 1, base + 2, base + 3]);
        }
    }
}

#[test]
fn test_apply_channel_shift_small() {
    let mut img = PixelBuffer::new(2, 2);
    img.put_pixel(0, 0, [1, 2, 3, 4]);
    img.put_pixel(1, 0, [5, 6, 7, 8]);
    img.put_pixel(0, 1, [9, 10, 11, 12]);
    img.put_pixel(1, 1, [13, 14, 15, 16]);

    let out = apply_channel_shift(&img, 1);

    // Red reads from (x - 1, y), green from (x, y - 1), blue from (x + 1, y);
    // out-of-bounds sources keep the pixel's own value; alpha is untouched.
    assert_eq!(out.get_pixel(0, 0), [1, 2, 7, 4]);
    assert_eq!(out.get_pixel(1, 0), [1, 6, 7, 8]);
    assert_eq!(out.get_pixel(0, 1), [9, 2, 15, 12]);
    assert_eq!(out.get_pixel(1, 1), [9, 6, 15, 16]);
}

#[test]
fn test_full_pipeline_uniform_red() {
    let mut img = PixelBuffer::new(100, 100);
    for y in 0..100u32 {
        for x in 0..100u32 {
            img.put_pixel(x, y, [255, 0, 0, 255]);
        }
    }

    let out = apply_channel_shift(&img, 5);
    assert_eq!(out.width, 100);
    assert_eq!(out.height, 100);
    assert_eq!(strip_alpha(&out), strip_alpha(&img));
}

#[test]
fn test_offset_larger_than_image() {
    let mut img = PixelBuffer::new(10, 10);
    for y in 0..10u32 {
        for x in 0..10u32 {
            let base = (x * 10 + y) as u8;
            img.put_pixel(x, y, [base, base + 1, base + 2, base + 3]);
        }
    }

    // Every source coordinate is out of bounds in every stage, so the result
    // is an identity copy.
    let out = apply_channel_shift(&img, 1000);
    for y in 0..10u32 {
        for x in 0..10u32 {
            assert_eq!(out.get_pixel(x, y), img.get_pixel(x, y));
        }
    }
    assert_eq!(strip_alpha(&out), strip_alpha(&img));
}

#[test]
fn test_zero_size_image() {
    let img = PixelBuffer::new(0, 0);

    let a = shift_channel(&img, 3, -2, 1);
    assert_eq!(a.width, 0);
    assert_eq!(a.height, 0);

    let out = apply_channel_shift(&img, 5);
    assert_eq!(out.width, 0);
    assert_eq!(out.height, 0);
    assert_eq!(strip_alpha(&out), Vec::<u8>::new());
}

#[test]
fn test_strip_alpha_bytes() {
    let mut img = PixelBuffer::new(2, 1);
    img.put_pixel(0, 0, [1, 2, 3, 4]);
    img.put_pixel(1, 0, [5, 6, 7, 8]);

    assert_eq!(strip_alpha(&img), vec![1, 2, 3, 5, 6, 7]);
}
