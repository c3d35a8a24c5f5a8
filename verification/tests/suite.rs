use dither_web::diffusion::dither_atkinson;
use dither_web::diffusion::dither_floyd_steinberg;
use dither_web::diffusion::dither_sierra_lite;
use dither_web::ordered::dither_bayer;
use dither_web::random::dither_random_threshold;
use dither_web::random::RandomSource;
use dither_web::all_dithers;
use dither_web::BiLevel;
use dither_web::DitherKind;
use dither_web::Raster;

fn raster(width: usize, height: usize, data: Vec<u8>) -> Raster {
    Raster::new(width, height, data).unwrap()
}

#[test]
fn random_threshold_same_seed_repeats_exactly() {
    let data: Vec<u8> = (0u8..=255).cycle().take(5 * 11).collect();
    let mut first = raster(5, 11, data.clone());
    let mut second = raster(5, 11, data.clone());
    let mut rng1 = RandomSource::new(0xDEAD_BEEF);
    let mut rng2 = RandomSource::new(0xDEAD_BEEF);
    dither_random_threshold(&mut first, &BiLevel, &mut rng1).unwrap();
    dither_random_threshold(&mut second, &BiLevel, &mut rng2).unwrap();
    assert_eq!(first.samples(), second.samples());
    assert!(first.samples().iter().all(|&s| s == 0 || s == 255));
}

#[test]
fn random_threshold_draws_one_byte_per_pixel() {
    let data = vec![10u8, 200, 10, 200, 100, 50];
    let seed = 42u64;

    let mut bytes = Vec::new();
    let mut probe = RandomSource::new(seed);
    for _ in 0..data.len() {
        bytes.push(probe.next_byte());
    }

    let mut r = raster(3, 2, data.clone());
    let mut rng = RandomSource::new(seed);
    dither_random_threshold(&mut r, &BiLevel, &mut rng).unwrap();

    for (i, &out) in r.samples().iter().enumerate() {
        let biased = (data[i] as i32 + bytes[i] as i32 - 128).clamp(0, 255) as u8;
        let expected = if biased >= 128 { 255 } else { 0 };
        assert_eq!(out, expected);
    }
}

#[test]
fn random_threshold_zero_dimension_is_noop() {
    let mut r = raster(0, 3, vec![]);
    let mut rng = RandomSource::new(7);
    dither_random_threshold(&mut r, &BiLevel, &mut rng).unwrap();
    assert_eq!(r.samples(), &Vec::<u8>::new());
}

#[test]
fn all_dithers_runs_every_variant_in_order() {
    let data: Vec<u8> = (0u8..=255).cycle().take(6 * 4).collect();
    let image = raster(6, 4, data.clone());
    let seed = 123u64;
    let out = all_dithers(&image, &BiLevel, seed).unwrap();

    assert_eq!(out.len(), 5);
    let kinds: Vec<DitherKind> = out.iter().map(|(k, _)| *k).collect();
    assert_eq!(
        kinds,
        vec![
            DitherKind::FloydSteinberg,
            DitherKind::Atkinson,
            DitherKind::SierraLite,
            DitherKind::Bayer,
            DitherKind::RandomThreshold,
        ]
    );

    // The input raster is untouched and every result keeps its dimensions.
    assert_eq!(image.samples(), &data);
    for (_, r) in &out {
        assert_eq!(r.width(), 6);
        assert_eq!(r.height(), 4);
        assert_eq!(r.samples().len(), data.len());
    }

    // Each entry matches the corresponding standalone pass.
    let mut fs = raster(6, 4, data.clone());
    dither_floyd_steinberg(&mut fs, &BiLevel).unwrap();
    assert_eq!(out[0].1.samples(), fs.samples());

    let mut at = raster(6, 4, data.clone());
    dither_atkinson(&mut at, &BiLevel).unwrap();
    assert_eq!(out[1].1.samples(), at.samples());

    let mut sl = raster(6, 4, data.clone());
    dither_sierra_lite(&mut sl, &BiLevel).unwrap();
    assert_eq!(out[2].1.samples(), sl.samples());

    let mut by = raster(6, 4, data.clone());
    dither_bayer(&mut by, &BiLevel).unwrap();
    assert_eq!(out[3].1.samples(), by.samples());

    let mut rt = raster(6, 4, data.clone());
    let mut rng = RandomSource::new(seed);
    dither_random_threshold(&mut rt, &BiLevel, &mut rng).unwrap();
    assert_eq!(out[4].1.samples(), rt.samples());
}

#[test]
fn all_dithers_rejects_invalid_raster() {
    let bad = Raster {
        width: 3,
        height: 3,
        data: vec![1, 2, 3],
    };
    assert!(all_dithers(&bad, &BiLevel, 0).is_err());
}
