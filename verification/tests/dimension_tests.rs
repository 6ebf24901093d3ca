use std::io::Write;
use pdf_slim::compress::images::{decode_pdf_image, downscaled_dimensions};

fn reference(w: u32, h: u32, max: u32) -> Option<(u32, u32)> {
    if max > 0 && (w > max || h > max) {
        let scale = if w > h { max as f64 / w as f64 } else { max as f64 / h as f64 };
        Some(((w as f64 * scale) as u32, (h as f64 * scale) as u32))
    } else {
        None
    }
}

#[test]
fn downscale_examples() {
    assert_eq!(downscaled_dimensions(3000, 2000, 1920), reference(3000, 2000, 1920));
    assert_eq!(downscaled_dimensions(100, 50, 0), None);
    assert_eq!(downscaled_dimensions(1920, 1080, 1920), None);
    assert_eq!(downscaled_dimensions(1000, 4000, 1280), Some((320, 1280)));
}

#[test]
fn downscale_matches_f64_arithmetic() {
    let maxes = [1u32, 2, 3, 7, 640, 1280, 1920, 2560, 4095, 65_535, 1_000_000, u32::MAX - 1];
    let mut seed: u64 = 0x9E37_79B9_7F4A_7C15;
    for &max in &maxes {
        for _ in 0..3000 {
            seed ^= seed << 13;
            seed ^= seed >> 7;
            seed ^= seed << 17;
            let w = (seed as u32) % (max.saturating_mul(3).max(4)) + 1;
            let h = ((seed >> 32) as u32) % (max.saturating_mul(3).max(4)) + 1;
            let got = downscaled_dimensions(w, h, max);
            assert_eq!(got, reference(w, h, max), "w={} h={} max={}", w, h, max);
            if let Some((nw, nh)) = got {
                assert!(nw <= max && nh <= max);
            }
        }
    }
    for w in 1921u32..6000 {
        assert_eq!(downscaled_dimensions(w, 1000, 1920), reference(w, 1000, 1920), "w={}", w);
        assert_eq!(downscaled_dimensions(w, w - 1, 1280), reference(w, w - 1, 1280), "w={}", w);
    }
    for w in [u32::MAX, u32::MAX - 1, 3_000_000_001, 4_294_967_291] {
        for max in [1u32, 1920, 2_147_483_647, 4_000_000_000] {
            for h in [1u32, 2, w / 2, w - 1, w] {
                assert_eq!(downscaled_dimensions(w, h, max), reference(w, h, max), "w={} h={} max={}", w, h, max);
                assert_eq!(downscaled_dimensions(h, w, max), reference(h, w, max), "w={} h={} max={}", h, w, max);
            }
        }
    }
}

#[test]
fn decode_raw_pixels() {
    let rgb: Vec<u8> = vec![255, 0, 0, 0, 255, 0, 0, 0, 255, 255, 255, 255];
    assert!(decode_pdf_image(&rgb, 2, 2, 3, &None).is_some());
    assert!(decode_pdf_image(&rgb, 0, 2, 3, &None).is_none());
    assert!(decode_pdf_image(&rgb[..4], 2, 2, 1, &None).is_some());
    // Twelve bytes are exactly 2 x 2 x 3 but 3 x 2 x 2 too: 2 components are no raw layout.
    assert!(decode_pdf_image(&rgb, 3, 2, 2, &None).is_none());
    // Not raw pixels and not an encoded image.
    assert!(decode_pdf_image(&rgb[..5], 2, 2, 3, &None).is_none());
}

#[test]
fn decode_flate_wrapped_pixels() {
    let rgb: Vec<u8> = (0..48u8).collect();
    let mut enc = flate2::write::ZlibEncoder::new(Vec::new(), flate2::Compression::default());
    enc.write_all(&rgb).unwrap();
    let z = enc.finish().unwrap();
    let filters = Some(vec!["FlateDecode".to_string()]);
    assert!(decode_pdf_image(&z, 4, 4, 3, &filters).is_some());
    assert!(decode_pdf_image(&z, 4, 4, 3, &None).is_none());
}
