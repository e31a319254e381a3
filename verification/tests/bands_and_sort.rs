use slugtext::bands::build_bands;
use slugtext::bands::clamp_band_index;
use slugtext::bands::CurveSpan;
use slugtext::sort::float_order_key;
use slugtext::sort::sort_indices_by_key_desc;

fn lists(bands: &[slugtext::bands::BandEntry]) -> Vec<Vec<usize>> {
    bands.iter().map(|b| b.curve_indices.clone()).collect()
}

#[test]
fn clamp_band_index_clamps_both_ends() {
    assert_eq!(clamp_band_index(-3, 8), 0);
    assert_eq!(clamp_band_index(0, 8), 0);
    assert_eq!(clamp_band_index(5, 8), 5);
    assert_eq!(clamp_band_index(7, 8), 7);
    assert_eq!(clamp_band_index(12, 8), 7);
}

#[test]
fn build_bands_distributes_curves_over_their_spans() {
    let spans = vec![
        CurveSpan { h: Some((0, 1)), v: Some((3, 3)) },
        CurveSpan { h: Some((-2, 0)), v: Some((2, 9)) },
        CurveSpan { h: Some((3, 2)), v: None },
        CurveSpan { h: Some((1, 1)), v: Some((0, 3)) },
    ];
    let bands = build_bands(&spans, 4);
    assert_eq!(bands.h_band_count, 4);
    assert_eq!(bands.v_band_count, 4);
    assert_eq!(lists(&bands.h_bands), vec![vec![0, 1], vec![0, 3], vec![], vec![]]);
    assert_eq!(lists(&bands.v_bands), vec![vec![3], vec![3], vec![1, 3], vec![0, 1, 3]]);
}

#[test]
fn build_bands_with_no_extent_leaves_bands_empty() {
    let spans = vec![CurveSpan { h: None, v: None }, CurveSpan { h: None, v: None }];
    let bands = build_bands(&spans, 8);
    assert_eq!(bands.h_bands.len(), 8);
    assert_eq!(bands.v_bands.len(), 8);
    assert!(bands.h_bands.iter().all(|b| b.curve_indices.is_empty()));
    assert!(bands.v_bands.iter().all(|b| b.curve_indices.is_empty()));
}

#[test]
fn build_bands_zero_count_without_extent() {
    let spans = vec![CurveSpan { h: None, v: None }];
    let bands = build_bands(&spans, 0);
    assert_eq!(bands.h_band_count, 0);
    assert!(bands.h_bands.is_empty() && bands.v_bands.is_empty());
}

#[test]
fn every_curve_with_a_span_lands_in_some_band() {
    let spans: Vec<CurveSpan> = (0..20)
        .map(|i: isize| CurveSpan { h: Some((i - 10, i - 9)), v: Some((i * 3 - 5, i * 3 - 5)) })
        .collect();
    let bands = build_bands(&spans, 8);
    for ci in 0..spans.len() {
        assert!(bands.h_bands.iter().any(|b| b.curve_indices.contains(&ci)));
        assert!(bands.v_bands.iter().any(|b| b.curve_indices.contains(&ci)));
    }
    for b in bands.h_bands.iter().chain(bands.v_bands.iter()) {
        assert!(b.curve_indices.windows(2).all(|w| w[0] < w[1]));
    }
}

#[test]
fn sort_is_descending_and_stable() {
    let keys: Vec<u32> = vec![5, 9, 5, 1, 9, 7];
    let indices: Vec<usize> = vec![0, 1, 2, 3, 4, 5];
    let sorted = sort_indices_by_key_desc(&indices, &keys);
    assert_eq!(sorted, vec![1, 4, 5, 0, 2, 3]);
    let sorted2 = sort_indices_by_key_desc(&vec![3, 2, 0], &keys);
    assert_eq!(sorted2, vec![2, 0, 3]);
    let empty = sort_indices_by_key_desc(&vec![], &keys);
    assert!(empty.is_empty());
}

#[test]
fn sort_keeps_every_element() {
    let keys: Vec<u32> = vec![3, 3, 3, 0, 8];
    let indices: Vec<usize> = vec![4, 0, 4, 1, 3, 2];
    let sorted = sort_indices_by_key_desc(&indices, &keys);
    assert_eq!(sorted, vec![4, 4, 0, 1, 2, 3]);
}

#[test]
fn float_order_key_orders_like_floats() {
    let values: [f32; 7] = [-1000.5, -2.0, -0.25, 0.0, 0.125, 3.0, 70000.0];
    for w in values.windows(2) {
        assert!(float_order_key(w[0].to_bits()) < float_order_key(w[1].to_bits()));
    }
    assert_eq!(float_order_key((-0.0f32).to_bits()), float_order_key(0.0f32.to_bits()));
    assert_eq!(float_order_key(0), 0x8000_0000);
    assert_eq!(float_order_key(0xFFFF_FFFF), 0);
}
