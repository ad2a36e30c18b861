use xphoto::error::WbError;
use xphoto::gain::{apply_channel_gains, scale_sample, FP_ONE};
use xphoto::grayworld::create_grayworld_wb;
use xphoto::image::{Depth, Image};
use xphoto::learning::{create_learning_based_wb, WbModel};
use xphoto::simple::create_simple_wb;
use xphoto::WhiteBalancer;

fn image8(width: usize, height: usize, channels: usize, data: Vec<u16>) -> Image {
    Image::new(width, height, channels, Depth::Bits8, data).unwrap()
}

#[test]
fn unit_gain_is_identity() {
    let data = vec![0, 1, 2, 10, 20, 30, 100, 150, 200, 255, 254, 253];
    let src = image8(2, 2, 3, data.clone());
    let out = apply_channel_gains(&src, FP_ONE, FP_ONE, FP_ONE).unwrap();
    assert_eq!(out.data, data);
    assert_eq!(out.width, 2);
    assert_eq!(out.height, 2);
    assert_eq!(out.channels, 3);
}

#[test]
fn huge_gain_clamps_to_range() {
    let data = vec![0, 1, 2, 10, 20, 30, 100, 150, 200, 255, 254, 253];
    let src = image8(2, 2, 3, data);
    let out = apply_channel_gains(&src, u32::MAX, u32::MAX, u32::MAX).unwrap();
    for &s in out.data.iter() {
        assert!(s <= 255);
    }
    // every nonzero sample saturates
    assert_eq!(out.data[0], 0);
    assert_eq!(out.data[3], 255);
}

#[test]
fn zero_gain_blacks_out() {
    let src = image8(1, 1, 3, vec![7, 8, 9]);
    let out = apply_channel_gains(&src, 0, 0, 0).unwrap();
    assert_eq!(out.data, vec![0, 0, 0]);
}

#[test]
fn half_gain_rounds_half_up() {
    // 0.5 in fixed point; round(v * 0.5) with half rounded up
    assert_eq!(scale_sample(5, 2048, 255), 3);
    assert_eq!(scale_sample(4, 2048, 255), 2);
    assert_eq!(scale_sample(3, 2048, 255), 2);
    assert_eq!(scale_sample(0, 2048, 255), 0);
}

#[test]
fn apply_rejects_non_three_channel() {
    let src = image8(2, 2, 1, vec![1, 2, 3, 4]);
    assert_eq!(apply_channel_gains(&src, FP_ONE, FP_ONE, FP_ONE).err(), Some(WbError::InvalidArgument));
}

#[test]
fn table_matches_float_within_one() {
    // representative gains: 0, tiny, 0.5, 1, 1.7, 3.2, 10
    for &raw in &[0u32, 1, 2048, 4096, 6963, 13107, 40960] {
        for v in 0u16..=255 {
            let lib = scale_sample(v, raw, 255) as f64;
            let exact = (v as f64) * (raw as f64) / 4096.0;
            let fl = exact.round().min(255.0).max(0.0);
            assert!(
                (lib - fl).abs() <= 1.0,
                "v={} raw={} lib={} float={}",
                v,
                raw,
                lib,
                fl
            );
        }
    }
}

#[test]
fn table_matches_float_sixteen_bit() {
    for &raw in &[2048u32, 4096, 6963] {
        for &v in &[0u16, 1, 999, 40000, 65535] {
            let lib = scale_sample(v, raw, 65535) as f64;
            let exact = (v as f64) * (raw as f64) / 4096.0;
            let fl = exact.round().min(65535.0).max(0.0);
            assert!((lib - fl).abs() <= 1.0);
        }
    }
}

#[test]
fn gray_world_converges_on_constant_cast() {
    // every pixel (B, G, R) = (10, 20, 30): channel means are (10, 20, 30)
    let mut data = Vec::new();
    for _ in 0..6 {
        data.extend_from_slice(&[10, 20, 30]);
    }
    let src = image8(3, 2, 3, data);
    let mut wb = create_grayworld_wb();
    wb.set_saturation_threshold(FP_ONE).unwrap();
    let out = wb.balance(&src).unwrap();
    // output channel means must agree within rounding
    let mut means = [0f64; 3];
    for px in 0..6 {
        for c in 0..3 {
            means[c] += out.data[px * 3 + c] as f64;
        }
    }
    for c in 0..3 {
        means[c] /= 6.0;
    }
    assert!((means[0] - means[1]).abs() <= 1.0);
    assert!((means[1] - means[2]).abs() <= 1.0);
    assert!((means[0] - means[2]).abs() <= 1.0);
}

#[test]
fn gray_world_gains_exact() {
    // sums: b=60, g=120, r=180, total=360 over 6 pixels
    let mut data = Vec::new();
    for _ in 0..6 {
        data.extend_from_slice(&[10, 20, 30]);
    }
    let src = image8(3, 2, 3, data);
    let mut wb = create_grayworld_wb();
    wb.set_saturation_threshold(FP_ONE).unwrap();
    let g = wb.estimate_gains(&src).unwrap();
    assert_eq!(g.b, 8192); // 360 / (3*60) = 2.0
    assert_eq!(g.g, 4096); // 1.0
    assert_eq!(g.r, 2731); // 2/3, rounded half up
}

#[test]
fn saturation_excludes_extreme_pixels() {
    // five gray pixels and one fully saturated outlier
    let mut data = Vec::new();
    for _ in 0..5 {
        data.extend_from_slice(&[100, 100, 100]);
    }
    data.extend_from_slice(&[0, 0, 255]);
    let src = image8(3, 2, 3, data);
    let mut wb = create_grayworld_wb();
    wb.set_saturation_threshold(2048).unwrap(); // 0.5
    let g = wb.estimate_gains(&src).unwrap();
    // only the gray pixels count, so all gains are exactly 1
    assert_eq!((g.b, g.g, g.r), (FP_ONE, FP_ONE, FP_ONE));
    let out = wb.balance(&src).unwrap();
    for px in 0..5 {
        for c in 0..3 {
            assert_eq!(out.data[px * 3 + c], 100);
        }
    }
}

#[test]
fn gray_world_all_black_is_insufficient() {
    let src = image8(2, 1, 3, vec![0; 6]);
    let wb = create_grayworld_wb();
    assert_eq!(wb.estimate_gains(&src), Err(WbError::InsufficientData));
}

#[test]
fn gray_world_rejects_single_channel() {
    let src = image8(2, 2, 1, vec![5, 5, 5, 5]);
    let wb = create_grayworld_wb();
    assert_eq!(wb.estimate_gains(&src), Err(WbError::InvalidArgument));
}

#[test]
fn gray_world_threshold_accessors() {
    let mut wb = create_grayworld_wb();
    assert_eq!(wb.get_saturation_threshold(), 3686);
    wb.set_saturation_threshold(1000).unwrap();
    assert_eq!(wb.get_saturation_threshold(), 1000);
    assert_eq!(wb.set_saturation_threshold(FP_ONE + 1), Err(WbError::InvalidArgument));
    assert_eq!(wb.get_saturation_threshold(), 1000);
}

#[test]
fn percentile_stretch_boundary_maps_extremes() {
    let src = image8(4, 1, 1, vec![10, 50, 90, 200]);
    let mut wb = create_simple_wb();
    wb.set_p(0).unwrap();
    wb.set_input_min(10);
    wb.set_input_max(200);
    wb.set_output_min(0);
    wb.set_output_max(255);
    let out = wb.balance(&src).unwrap();
    assert_eq!(out.data, vec![0, 54, 107, 255]);
}

#[test]
fn percentile_stretch_default_range_boundary() {
    // p = 0 and the full default input range: darkest -> 0, brightest -> max
    let src = image8(4, 1, 1, vec![10, 50, 90, 200]);
    let mut wb = create_simple_wb();
    wb.set_p(0).unwrap();
    let out = wb.balance(&src).unwrap();
    assert_eq!(out.data[0], 0);
    assert_eq!(out.data[3], 255);
}

#[test]
fn percentile_trim_discards_outliers() {
    let src = image8(6, 1, 1, vec![0, 50, 60, 70, 80, 255]);
    let mut wb = create_simple_wb();
    wb.set_p(34).unwrap(); // one pixel trimmed at each tail
    wb.set_output_min(0);
    wb.set_output_max(255);
    let out = wb.balance(&src).unwrap();
    assert_eq!(out.data, vec![0, 0, 85, 170, 255, 255]);
}

#[test]
fn simple_three_channel_stretch() {
    // channels stretch independently
    let src = image8(2, 1, 3, vec![10, 0, 100, 20, 200, 100]);
    let mut wb = create_simple_wb();
    wb.set_p(0).unwrap();
    wb.set_output_min(0);
    wb.set_output_max(255);
    let out = wb.balance(&src).unwrap();
    // channel B: 10..20 -> 0, 255; channel G: 0..200 -> 0, 255;
    // channel R is constant, a degenerate range maps to the output floor
    assert_eq!(out.data, vec![0, 0, 0, 255, 255, 0]);
}

#[test]
fn simple_rejects_bad_p() {
    let mut wb = create_simple_wb();
    assert_eq!(wb.set_p(100), Err(WbError::InvalidArgument));
    assert_eq!(wb.set_p(-1), Err(WbError::InvalidArgument));
    assert!(wb.set_p(0).is_ok());
    assert!(wb.set_p(99).is_ok());
    assert_eq!(wb.get_p(), 99);
}

#[test]
fn simple_rejects_inverted_input_range() {
    let src = image8(1, 1, 1, vec![5]);
    let mut wb = create_simple_wb();
    wb.set_input_min(100);
    wb.set_input_max(50);
    assert_eq!(wb.balance(&src).err(), Some(WbError::InvalidArgument));
}

#[test]
fn simple_empty_image_is_insufficient() {
    let src = Image::new(0, 0, 1, Depth::Bits8, Vec::new()).unwrap();
    let wb = create_simple_wb();
    assert_eq!(wb.balance(&src).err(), Some(WbError::InsufficientData));
}

#[test]
fn simple_accessors_roundtrip() {
    let mut wb = create_simple_wb();
    assert_eq!(wb.get_p(), 2);
    assert_eq!(wb.get_input_min(), 0);
    assert_eq!(wb.get_input_max(), 65535);
    assert_eq!(wb.get_output_min(), 0);
    assert_eq!(wb.get_output_max(), 65535);
    wb.set_input_min(3);
    wb.set_input_max(250);
    wb.set_output_min(10);
    wb.set_output_max(240);
    assert_eq!(wb.get_input_min(), 3);
    assert_eq!(wb.get_input_max(), 250);
    assert_eq!(wb.get_output_min(), 10);
    assert_eq!(wb.get_output_max(), 240);
}

#[test]
fn learning_rejects_bad_parameters() {
    let mut wb = create_learning_based_wb();
    assert_eq!(wb.set_hist_bin_num(0), Err(WbError::InvalidArgument));
    assert_eq!(wb.set_hist_bin_num(-3), Err(WbError::InvalidArgument));
    assert_eq!(wb.set_range_max_val(0), Err(WbError::InvalidArgument));
    assert_eq!(wb.set_range_max_val(-1), Err(WbError::InvalidArgument));
    assert_eq!(wb.set_saturation_threshold(FP_ONE + 1), Err(WbError::InvalidArgument));
    assert!(wb.set_hist_bin_num(32).is_ok());
    assert!(wb.set_range_max_val(4095).is_ok());
    assert!(wb.set_saturation_threshold(FP_ONE).is_ok());
    assert_eq!(wb.get_hist_bin_num(), 32);
    assert_eq!(wb.get_range_max_val(), 4095);
    assert_eq!(wb.get_saturation_threshold(), FP_ONE);
}

#[test]
fn learning_without_model_fails() {
    let mut wb = create_learning_based_wb();
    wb.model = None;
    let src = image8(1, 1, 3, vec![10, 20, 30]);
    assert_eq!(wb.estimate_gains(&src), Err(WbError::ModelLoadError));
}

#[test]
fn learning_default_model_gives_unit_gains() {
    let wb = create_learning_based_wb();
    let src = image8(2, 2, 3, vec![10, 20, 30, 40, 50, 60, 5, 5, 5, 70, 80, 90]);
    let g = wb.estimate_gains(&src).unwrap();
    assert_eq!((g.b, g.g, g.r), (FP_ONE, FP_ONE, FP_ONE));
    let out = wb.balance(&src).unwrap();
    assert_eq!(out.data, src.data);
}

#[test]
fn learning_custom_model_scales_gains() {
    let mut wb = create_learning_based_wb();
    let mut weights = [0i64; 27];
    weights[8] = 8192; // B gain 2.0
    weights[17] = 4096; // G gain 1.0
    weights[26] = 2048; // R gain 0.5
    wb.model = Some(WbModel { weights });
    let src = image8(1, 1, 3, vec![10, 20, 30]);
    let g = wb.estimate_gains(&src).unwrap();
    assert_eq!((g.b, g.g, g.r), (8192, 4096, 2048));
    let out = wb.balance(&src).unwrap();
    assert_eq!(out.data, vec![20, 20, 15]);
}

#[test]
fn learning_extract_features_single_pixel() {
    let mut wb = create_learning_based_wb();
    wb.set_saturation_threshold(FP_ONE).unwrap();
    let src = image8(1, 1, 3, vec![10, 20, 30]);
    let f = wb.extract_simple_features(&src).unwrap();
    // average and brightest share of (R, G) over R+G+B = 60
    assert_eq!((f.average.r, f.average.g), (2048, 1365));
    assert_eq!((f.brightest.r, f.brightest.g), (2048, 1365));
    // dominant: bin centers of (10, 20, 30) with 64 bins over 0..=255
    // are (10, 22, 30); chromaticity over 62
    assert_eq!((f.dominant.r, f.dominant.g), (1982, 1453));
    // one palette color only, so the mode is the dominant chromaticity
    assert_eq!((f.mode.r, f.mode.g), (1982, 1453));
}

#[test]
fn learning_all_saturated_is_insufficient() {
    let mut wb = create_learning_based_wb();
    wb.set_saturation_threshold(0).unwrap();
    let src = image8(1, 1, 3, vec![10, 20, 30]);
    assert_eq!(wb.estimate_gains(&src), Err(WbError::InsufficientData));
}

#[test]
fn image_new_validates() {
    assert!(Image::new(2, 2, 3, Depth::Bits8, vec![0; 12]).is_ok());
    assert_eq!(
        Image::new(2, 2, 3, Depth::Bits8, vec![0; 11]).err(),
        Some(WbError::InvalidArgument)
    );
    assert_eq!(
        Image::new(2, 2, 2, Depth::Bits8, vec![0; 8]).err(),
        Some(WbError::InvalidArgument)
    );
    assert_eq!(
        Image::new(1, 1, 3, Depth::Bits8, vec![0, 0, 300]).err(),
        Some(WbError::InvalidArgument)
    );
    assert!(Image::new(1, 1, 3, Depth::Bits16, vec![0, 0, 300]).is_ok());
}

#[test]
fn sixteen_bit_gains() {
    let src = Image::new(1, 1, 3, Depth::Bits16, vec![40000, 60000, 100]).unwrap();
    let out = apply_channel_gains(&src, 2048, u32::MAX, FP_ONE).unwrap();
    assert_eq!(out.data, vec![20000, 65535, 100]);
}

#[test]
fn balance_white_through_trait() {
    let src = image8(1, 2, 3, vec![10, 20, 30, 10, 20, 30]);
    let gw = create_grayworld_wb();
    let out = gw.balance_white(&src).unwrap();
    assert_eq!(out.width, 1);
    assert_eq!(out.height, 2);
    assert_eq!(out.channels, 3);

    let sw = create_simple_wb();
    let out2 = sw.balance_white(&src).unwrap();
    assert_eq!(out2.data.len(), 6);

    let lw = create_learning_based_wb();
    let out3 = lw.balance_white(&src).unwrap();
    assert_eq!(out3.data, src.data);
}

#[test]
fn gray_world_falls_back_to_all_pixels() {
    // threshold 0: no pixel passes, so all pixels are used instead
    let mut data = Vec::new();
    for _ in 0..6 {
        data.extend_from_slice(&[10, 20, 30]);
    }
    let src = image8(3, 2, 3, data);
    let mut wb = create_grayworld_wb();
    wb.set_saturation_threshold(0).unwrap();
    let g = wb.estimate_gains(&src).unwrap();
    assert_eq!((g.b, g.g, g.r), (8192, 4096, 2731));
}

#[test]
fn gray_world_zero_channel_keeps_unit_gain() {
    // the blue channel is identically zero: its gain stays 1
    let src = image8(2, 1, 3, vec![0, 10, 30, 0, 10, 30]);
    let mut wb = create_grayworld_wb();
    wb.set_saturation_threshold(FP_ONE).unwrap();
    let g = wb.estimate_gains(&src).unwrap();
    assert_eq!(g.b, FP_ONE);
    // total = 80, g gain = 80 * 4096 / 60 rounded half up, r gain = 80 * 4096 / 180
    assert_eq!(g.g, 5461);
    assert_eq!(g.r, 1820);
}

#[test]
fn learning_rejects_single_channel() {
    let wb = create_learning_based_wb();
    let src = image8(2, 2, 1, vec![5, 5, 5, 5]);
    assert_eq!(wb.estimate_gains(&src), Err(WbError::InvalidArgument));
}

#[test]
fn simple_sixteen_bit_stretch() {
    let src = Image::new(3, 1, 1, Depth::Bits16, vec![1000, 2000, 3000]).unwrap();
    let mut wb = create_simple_wb();
    wb.set_p(0).unwrap();
    let out = wb.balance(&src).unwrap();
    assert_eq!(out.data, vec![0, 32768, 65535]);
}

#[test]
fn balancing_is_deterministic() {
    // equal inputs and configuration give bitwise-equal outputs
    let src = image8(2, 2, 3, vec![10, 20, 30, 40, 50, 60, 5, 5, 5, 70, 80, 90]);
    let gw = create_grayworld_wb();
    assert_eq!(gw.balance(&src).unwrap().data, gw.balance(&src).unwrap().data);
    let sw = create_simple_wb();
    assert_eq!(sw.balance(&src).unwrap().data, sw.balance(&src).unwrap().data);
    let lw = create_learning_based_wb();
    assert_eq!(lw.balance(&src).unwrap().data, lw.balance(&src).unwrap().data);
}

#[test]
fn features_ignore_saturated_pixels() {
    // the two images differ only in pixels that are saturated in both
    let mut wb = create_learning_based_wb();
    wb.set_saturation_threshold(2048).unwrap(); // 0.5 of range_max_val = 255
    let a = image8(2, 1, 3, vec![40, 50, 60, 0, 0, 255]);
    let b = image8(2, 1, 3, vec![40, 50, 60, 255, 0, 200]);
    let fa = wb.extract_simple_features(&a).unwrap();
    let fb = wb.extract_simple_features(&b).unwrap();
    assert_eq!(fa, fb);
}
