use dither_web::diffusion::dither_atkinson;
use dither_web::diffusion::dither_floyd_steinberg;
use dither_web::diffusion::dither_sierra_lite;
use dither_web::ordered::dither_bayer;
use dither_web::BiLevel;
use dither_web::DitherError;
use dither_web::Quantizer;
use dither_web::Raster;

fn raster(width: usize, height: usize, data: Vec<u8>) -> Raster {
    Raster::new(width, height, data).unwrap()
}

#[test]
fn new_rejects_mismatched_buffer() {
    let r = Raster::new(2, 2, vec![1, 2, 3]);
    assert!(matches!(r, Err(DitherError::InvalidRaster)));
}

#[test]
fn new_accepts_matching_buffer() {
    let r = raster(3, 2, vec![0, 1, 2, 3, 4, 5]);
    assert_eq!(r.width(), 3);
    assert_eq!(r.height(), 2);
    assert_eq!(r.samples(), &vec![0, 1, 2, 3, 4, 5]);
    assert_eq!(r.into_samples(), vec![0, 1, 2, 3, 4, 5]);
}

#[test]
fn bilevel_threshold_is_128() {
    assert_eq!(BiLevel.quantize(0), 0);
    assert_eq!(BiLevel.quantize(127), 0);
    assert_eq!(BiLevel.quantize(128), 255);
    assert_eq!(BiLevel.quantize(255), 255);
}

#[test]
fn floyd_steinberg_golden_2x2() {
    // Top-left quantizes straight from 10 to 0; its error of 10 goes right
    // (7/16), below (5/16) and below-right (1/16), the below-left share is
    // clipped at the edge. Hand-working the remaining pixels gives the
    // expected buffer.
    let mut r = raster(2, 2, vec![10, 200, 10, 200]);
    dither_floyd_steinberg(&mut r, &BiLevel).unwrap();
    assert_eq!(r.samples(), &vec![0, 255, 0, 255]);
    assert_eq!(r.width(), 2);
    assert_eq!(r.height(), 2);
}

#[test]
fn floyd_steinberg_golden_3x1() {
    // A single row: only the rightward 7/16 share survives the edge
    // clipping. 100 -> 0 with err 100; 100 + 43 = 143 -> 255 with err -112;
    // 100 - 49 = 51 -> 0.
    let mut r = raster(3, 1, vec![100, 100, 100]);
    dither_floyd_steinberg(&mut r, &BiLevel).unwrap();
    assert_eq!(r.samples(), &vec![0, 255, 0]);
}

#[test]
fn atkinson_golden_2x2() {
    let mut r = raster(2, 2, vec![10, 200, 10, 200]);
    dither_atkinson(&mut r, &BiLevel).unwrap();
    assert_eq!(r.samples(), &vec![0, 255, 0, 255]);
}

#[test]
fn atkinson_golden_3x1() {
    // Each eighth-share of err 100 is 12: 100 -> 0, neighbors at +1 and +2
    // get 12 each; 112 -> 0 with share 14; 126 -> 0.
    let mut r = raster(3, 1, vec![100, 100, 100]);
    dither_atkinson(&mut r, &BiLevel).unwrap();
    assert_eq!(r.samples(), &vec![0, 0, 0]);
}

#[test]
fn sierra_lite_golden_2x2() {
    let mut r = raster(2, 2, vec![10, 200, 10, 200]);
    dither_sierra_lite(&mut r, &BiLevel).unwrap();
    assert_eq!(r.samples(), &vec![0, 255, 0, 255]);
}

#[test]
fn sierra_lite_golden_3x1() {
    // Rightward share is 2/4: 100 -> 0, 100 + 50 = 150 -> 255 with err
    // -105, 100 - 52 = 48 -> 0.
    let mut r = raster(3, 1, vec![100, 100, 100]);
    dither_sierra_lite(&mut r, &BiLevel).unwrap();
    assert_eq!(r.samples(), &vec![0, 255, 0]);
}

#[test]
fn bayer_golden_2x2() {
    // Thresholds tile as [[0, 128], [192, 64]]; the bias is added and the
    // sum clamped before the bilevel quantization: 10 + 0 -> 0,
    // 200 + 128 -> 255, 10 + 192 -> 255, 200 + 64 -> 255.
    let mut r = raster(2, 2, vec![10, 200, 10, 200]);
    dither_bayer(&mut r, &BiLevel).unwrap();
    assert_eq!(r.samples(), &vec![0, 255, 255, 255]);
}

#[test]
fn bayer_golden_2x2_mixed() {
    // 10 + 0 -> 0, 200 + 128 -> 255, 100 + 192 -> 255, 50 + 64 = 114 -> 0.
    let mut r = raster(2, 2, vec![10, 200, 100, 50]);
    dither_bayer(&mut r, &BiLevel).unwrap();
    assert_eq!(r.samples(), &vec![0, 255, 255, 0]);
}

#[test]
fn zero_dimension_raster_is_noop() {
    let mut r = raster(0, 0, vec![]);
    dither_floyd_steinberg(&mut r, &BiLevel).unwrap();
    assert_eq!(r.samples(), &Vec::<u8>::new());

    let mut r = raster(0, 5, vec![]);
    dither_atkinson(&mut r, &BiLevel).unwrap();
    assert_eq!(r.samples(), &Vec::<u8>::new());

    let mut r = raster(4, 0, vec![]);
    dither_sierra_lite(&mut r, &BiLevel).unwrap();
    assert_eq!(r.samples(), &Vec::<u8>::new());

    let mut r = raster(0, 0, vec![]);
    dither_bayer(&mut r, &BiLevel).unwrap();
    assert_eq!(r.samples(), &Vec::<u8>::new());
}

#[test]
fn one_pixel_raster_quantizes_directly() {
    for (value, expected) in [(10u8, 0u8), (200u8, 255u8)] {
        let mut r = raster(1, 1, vec![value]);
        dither_floyd_steinberg(&mut r, &BiLevel).unwrap();
        assert_eq!(r.samples(), &vec![expected]);

        let mut r = raster(1, 1, vec![value]);
        dither_atkinson(&mut r, &BiLevel).unwrap();
        assert_eq!(r.samples(), &vec![expected]);

        let mut r = raster(1, 1, vec![value]);
        dither_sierra_lite(&mut r, &BiLevel).unwrap();
        assert_eq!(r.samples(), &vec![expected]);
    }
}

#[test]
fn deterministic_variants_repeat_exactly() {
    let data: Vec<u8> = (0u8..=255).cycle().take(64 * 3).collect();
    for run in 0..2 {
        let mut first = raster(8, 24, data.clone());
        let mut second = raster(8, 24, data.clone());
        match run {
            0 => {
                dither_floyd_steinberg(&mut first, &BiLevel).unwrap();
                dither_floyd_steinberg(&mut second, &BiLevel).unwrap();
            }
            _ => {
                dither_bayer(&mut first, &BiLevel).unwrap();
                dither_bayer(&mut second, &BiLevel).unwrap();
            }
        }
        assert_eq!(first.samples(), second.samples());
    }
}

#[test]
fn outputs_are_bilevel() {
    let data: Vec<u8> = (0u8..=255).cycle().take(7 * 9).collect();
    let mut fs = raster(7, 9, data.clone());
    dither_floyd_steinberg(&mut fs, &BiLevel).unwrap();
    let mut at = raster(7, 9, data.clone());
    dither_atkinson(&mut at, &BiLevel).unwrap();
    let mut sl = raster(7, 9, data.clone());
    dither_sierra_lite(&mut sl, &BiLevel).unwrap();
    let mut by = raster(7, 9, data.clone());
    dither_bayer(&mut by, &BiLevel).unwrap();
    for r in [fs, at, sl, by] {
        assert_eq!(r.width(), 7);
        assert_eq!(r.height(), 9);
        assert!(r.samples().iter().all(|&s| s == 0 || s == 255));
    }
}

#[test]
fn invalid_raster_is_rejected_untouched() {
    let bad = Raster {
        width: 2,
        height: 2,
        data: vec![9, 9, 9],
    };
    let mut r = bad;
    assert_eq!(
        dither_floyd_steinberg(&mut r, &BiLevel),
        Err(DitherError::InvalidRaster)
    );
    assert_eq!(dither_atkinson(&mut r, &BiLevel), Err(DitherError::InvalidRaster));
    assert_eq!(
        dither_sierra_lite(&mut r, &BiLevel),
        Err(DitherError::InvalidRaster)
    );
    assert_eq!(dither_bayer(&mut r, &BiLevel), Err(DitherError::InvalidRaster));
    assert_eq!(r.samples(), &vec![9, 9, 9]);
    assert_eq!(r.width(), 2);
    assert_eq!(r.height(), 2);
}
