use velocity::assets::TextureCompression;
use velocity::assets::TextureCompression::{BC1, BC2, BC3, BC4, BC5, BC6H, BC7, RGBA8};
use velocity::pixels::{encode_half, encode_rgba8, fits_compression, kernel_input, pad_image, premultiply, quantize_alpha};

fn half_pixels(w: u32, h: u32, rgba: [u8; 4]) -> Vec<u8> {
    let mut data = Vec::new();
    for _ in 0..w * h {
        for c in rgba {
            let v = (c as f32 / 255.).clamp(0., 65504.);
            data.extend_from_slice(&half::f16::from_f32(v).to_le_bytes());
        }
    }
    data
}

#[test]
fn all_encoders_handle_partial_blocks() {
    for (w, h) in [(1u32, 1u32), (3, 5), (4, 4), (8, 12)] {
        for format in [BC1, BC2, BC3, BC4, BC5, BC6H, BC7, RGBA8] {
            let pixel = [255u8, 128, 64, 128];
            let data = if format == BC6H {
                encode_half(w, h, half_pixels(w, h, pixel))
            } else {
                let rgba: Vec<u8> = (0..w * h).flat_map(|_| pixel).collect();
                encode_rgba8(w, h, rgba, format)
            };
            let expected = match format {
                RGBA8 => w * h * 4,
                BC1 | BC4 => w.div_ceil(4) * h.div_ceil(4) * 8,
                _ => w.div_ceil(4) * h.div_ceil(4) * 16,
            };
            assert_eq!(data.len(), expected as usize, "{format:?} {w}x{h}");
            if format == BC2 {
                assert_eq!(&data[..8], &[0x88; 8]);
            }
        }
    }
}

#[test]
fn premultiply_scales_color_by_alpha() {
    let mut px = [255, 128, 64, 128, 10, 20, 30, 0, 7];
    premultiply(&mut px);
    assert_eq!(px, [128, 64, 32, 128, 0, 0, 0, 0, 7]);
    let mut opaque = [1, 2, 3, 255];
    premultiply(&mut opaque);
    assert_eq!(opaque, [1, 2, 3, 255]);
}

#[test]
fn rgba8_upload_is_premultiplied() {
    let out = encode_rgba8(1, 1, vec![255, 128, 64, 128], TextureCompression::RGBA8);
    assert_eq!(out, vec![128, 64, 32, 128]);
}

#[test]
fn bc2_alpha_is_rounded_to_sixteen_levels() {
    let mut px = vec![0, 0, 0, 0, 0, 0, 0, 8, 0, 0, 0, 9, 0, 0, 0, 255];
    quantize_alpha(&mut px);
    assert_eq!(px, vec![0, 0, 0, 0, 0, 0, 0, 0, 0, 0, 0, 17, 0, 0, 0, 255]);
}

#[test]
fn padding_repeats_the_last_column_and_row() {
    let src = [1u8, 2, 3, 4, 5, 6];
    let padded = pad_image(&src, 3, 2, 4, 3, 1);
    assert_eq!(padded, vec![1, 2, 3, 3, 4, 5, 6, 6, 4, 5, 6, 6]);
    let two = pad_image(&[9, 8], 1, 1, 2, 1, 2);
    assert_eq!(two, vec![9, 8, 9, 8]);
}

#[test]
fn bc2_alpha_bytes_follow_the_pixels() {
    let mut rgba = Vec::new();
    for i in 0..16u8 {
        rgba.extend_from_slice(&[0, 0, 0, i * 17]);
    }
    let out = encode_rgba8(4, 4, rgba, TextureCompression::BC2);
    assert_eq!(out.len(), 16);
    assert_eq!(&out[..8], &[0x10, 0x32, 0x54, 0x76, 0x98, 0xba, 0xdc, 0xfe]);
}

#[test]
fn single_channel_formats_keep_block_sizes() {
    let out = encode_rgba8(5, 5, vec![200; 100], TextureCompression::BC4);
    assert_eq!(out.len(), 4 * 8);
    let out = encode_rgba8(5, 5, vec![200; 100], TextureCompression::BC5);
    assert_eq!(out.len(), 4 * 16);
}

#[test]
fn compression_keeps_surfaces_within_32_bit_offsets() {
    assert!(fits_compression(23168, 23168, 4));
    assert!(!fits_compression(23172, 23172, 4));
    assert!(!fits_compression(536_870_916, 4, 4));
    assert!(fits_compression(16384, 16384, 4));
    assert!(!fits_compression(16384, 16384, 8));
    assert!(!fits_compression(0, 4, 4));
}

#[test]
fn kernels_get_the_prepared_padded_image() {
    let pixel = vec![255u8, 128, 64, 128];
    // No premultiplication for BC1: the pixel repeated over the block.
    assert_eq!(kernel_input(BC1, 1, 1, pixel.clone()), pixel.repeat(16));
    // BC3 and BC7 premultiply before padding.
    assert_eq!(kernel_input(BC3, 1, 1, pixel.clone()), [128u8, 64, 32, 128].repeat(16));
    assert_eq!(kernel_input(BC7, 1, 1, pixel.clone()), [128u8, 64, 32, 128].repeat(16));
    // BC2 rounds alpha to four bits (128 to 136) first.
    assert_eq!(kernel_input(BC2, 1, 1, pixel.clone()), [136u8, 68, 34, 136].repeat(16));
    // BC4 keeps red, BC5 red and green.
    assert_eq!(kernel_input(BC4, 1, 1, pixel.clone()), vec![255u8; 16]);
    assert_eq!(kernel_input(BC5, 1, 1, pixel.clone()), [255u8, 128].repeat(16));
    // RGBA8 has no kernel: its premultiplied pixels are uploaded.
    assert_eq!(kernel_input(RGBA8, 1, 1, pixel.clone()), vec![128u8, 64, 32, 128]);
    // BC6H pads eight-byte pixels.
    let half: Vec<u8> = (0u8..8).collect();
    assert_eq!(kernel_input(BC6H, 1, 1, half.clone()), half.repeat(16));
    // A 5×1 image grows to 8×4 by repeating its last column and row.
    let row: Vec<u8> = (0u8..5).flat_map(|x| [x, 0, 0, 255]).collect();
    let out = kernel_input(BC1, 5, 1, row);
    assert_eq!(out.len(), 8 * 4 * 4);
    assert_eq!(out[4 * 7], 4);
    assert_eq!(out[4 * (8 * 3 + 2)], 2);
}
