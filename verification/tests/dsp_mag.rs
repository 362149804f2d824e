use fishfinder::dsp::{MagnitudeStage, IQ};
use fishfinder::rtl::RadioConfig;

#[test]
fn magnitude_of_centre_is_zero() {
    assert_eq!(IQ { i: 127, q: 127 }.magnitude(), 0);
}

#[test]
fn magnitude_of_three_four_five_triangle() {
    // (130-127, 131-127) = (3, 4): magnitude 5
    assert_eq!(IQ { i: 130, q: 131 }.magnitude(), 5);
    assert_eq!(IQ { i: 124, q: 123 }.magnitude(), 5);
}

#[test]
fn magnitude_rounds_to_nearest() {
    // sqrt(2) = 1.41.. rounds to 1; sqrt(4 + 4) = 2.83.. rounds to 3
    assert_eq!(IQ { i: 128, q: 128 }.magnitude(), 1);
    assert_eq!(IQ { i: 129, q: 129 }.magnitude(), 3);
    // sqrt(0 + 1) = 1
    assert_eq!(IQ { i: 127, q: 128 }.magnitude(), 1);
}

#[test]
fn magnitude_of_extremes_fits_a_byte() {
    // (255-127, 255-127) = (128, 128): sqrt(32768) = 181.02 -> 181
    assert_eq!(IQ { i: 255, q: 255 }.magnitude(), 181);
    assert_eq!(IQ { i: 0, q: 0 }.magnitude(), 180); // sqrt(2 * 127^2) = 179.6 -> 180
}

#[test]
fn stage_pairs_across_chunks() {
    let mut stage = MagnitudeStage::new();
    // odd chunk: one dangling I byte is buffered
    let out = stage.push(&vec![130]);
    assert!(out.is_empty());
    // the buffered 130 pairs with the next chunk's first byte
    let out = stage.push(&vec![131, 127, 127]);
    assert_eq!(out, vec![5, 0]);
    let out = stage.push(&vec![124, 123]);
    assert_eq!(out, vec![5]);
}

#[test]
fn stage_even_chunks_have_no_pending() {
    let mut stage = MagnitudeStage::new();
    let out = stage.push(&vec![127, 127, 130, 131]);
    assert_eq!(out, vec![0, 5]);
    let out = stage.push(&vec![]);
    assert!(out.is_empty());
}

#[test]
fn mode_s_radio_configuration() {
    let cfg = RadioConfig::mode_s(0);
    assert_eq!(cfg.device_index, 0);
    assert_eq!(cfg.sample_rate, 2_000_000);
    assert_eq!(cfg.center_freq, 1_090_000_000);
    assert_eq!(cfg.ppm, 0);
}
