use slugtext::bands::BandEntry;
use slugtext::bands::GlyphBands;
use slugtext::packing::pack_glyph_data;
use slugtext::packing::Bounds;
use slugtext::packing::CurveSortKeys;
use slugtext::packing::QuadCurve;
use slugtext::packing::SlugGlyph;
use slugtext::texture::tex_height;
use slugtext::texture::texel_offset;
use slugtext::texture::TEX_WIDTH;

fn curve(base: f32) -> QuadCurve<f32> {
    QuadCurve { p0x: base, p0y: base + 1.0, p1x: base + 2.0, p1y: base + 3.0, p2x: base + 4.0, p2y: base + 5.0 }
}

fn entry(v: Vec<usize>) -> BandEntry {
    BandEntry { curve_indices: v }
}

fn bounds() -> Bounds {
    Bounds { x_min: 0, y_min: 0, x_max: 10, y_max: 10 }
}

fn glyph(id: u16, curves: Vec<QuadCurve<f32>>, h: Vec<Vec<usize>>, v: Vec<Vec<usize>>) -> SlugGlyph<f32> {
    let h_band_count = h.len();
    let v_band_count = v.len();
    SlugGlyph {
        glyph_id: id,
        curves,
        bands: GlyphBands {
            h_bands: h.into_iter().map(entry).collect(),
            v_bands: v.into_iter().map(entry).collect(),
            h_band_count,
            v_band_count,
        },
        bounds: bounds(),
    }
}

fn texel(data: &[u32], t: usize) -> [u32; 4] {
    [data[4 * t], data[4 * t + 1], data[4 * t + 2], data[4 * t + 3]]
}

#[test]
fn tex_height_rounds_up_and_is_never_zero() {
    assert_eq!(tex_height(0), 1);
    assert_eq!(tex_height(1), 1);
    assert_eq!(tex_height(TEX_WIDTH), 1);
    assert_eq!(tex_height(TEX_WIDTH + 1), 2);
    assert_eq!(tex_height(3 * TEX_WIDTH), 3);
}

#[test]
fn texel_offset_is_four_values_per_texel() {
    assert_eq!(texel_offset(0), 0);
    assert_eq!(texel_offset(5), 20);
    assert_eq!(texel_offset(TEX_WIDTH + 3), 4 * (TEX_WIDTH + 3));
}

#[test]
fn pack_two_glyphs() {
    // Glyph 0: curves a, b, c; one horizontal band {0, 1, 2}, one vertical band {1}.
    // Glyph 1: no bands. Glyph 2: curve d; bands {0} and {0}.
    let g0 = glyph(7, vec![curve(0.0), curve(10.0), curve(20.0)], vec![vec![0, 1, 2]], vec![vec![1]]);
    let g1 = glyph(8, vec![curve(30.0)], vec![], vec![]);
    let g2 = glyph(9, vec![curve(40.0)], vec![vec![0]], vec![vec![0]]);
    let glyphs = vec![g0, g1, g2];
    let keys = vec![
        CurveSortKeys { x_max: vec![1, 3, 2], y_max: vec![0, 0, 0] },
        CurveSortKeys { x_max: vec![0], y_max: vec![0] },
        CurveSortKeys { x_max: vec![0], y_max: vec![0] },
    ];
    let packed = pack_glyph_data(&glyphs, &keys, 0.0f32);

    // Curve texture: 5 curves, 10 texels, one row.
    assert_eq!(packed.curve_tex_height, 1);
    assert_eq!(packed.curve_tex_data.len(), TEX_WIDTH * 4);
    assert_eq!(packed.glyph_curve_starts, vec![0, 6, 8]);
    assert_eq!(&packed.curve_tex_data[0..8], &[0.0, 1.0, 2.0, 3.0, 4.0, 5.0, 0.0, 0.0]);
    assert_eq!(&packed.curve_tex_data[8..16], &[10.0, 11.0, 12.0, 13.0, 14.0, 15.0, 0.0, 0.0]);
    assert_eq!(&packed.curve_tex_data[32..40], &[40.0, 41.0, 42.0, 43.0, 44.0, 45.0, 0.0, 0.0]);
    assert!(packed.curve_tex_data[40..].iter().all(|&x| x == 0.0));

    // Band texture.
    assert_eq!(packed.band_tex_height, 1);
    assert_eq!(packed.band_tex_data.len(), TEX_WIDTH * 4);
    let info: Vec<(u16, u16)> = packed.glyph_band_info.iter().map(|i| (i.glyph_loc_x, i.glyph_loc_y)).collect();
    assert_eq!(info, vec![(0, 0), (0, 0), (6, 0)]);
    let d = &packed.band_tex_data;
    // Glyph 0 headers: h band has 3 curves at offset 2, v band 1 curve at offset 5.
    assert_eq!(texel(d, 0), [3, 2, 0, 0]);
    assert_eq!(texel(d, 1), [1, 5, 0, 0]);
    // h band sorted by decreasing x key: curves 1 (key 3), 2 (key 2), 0 (key 1).
    assert_eq!(texel(d, 2), [2, 0, 0, 0]);
    assert_eq!(texel(d, 3), [4, 0, 0, 0]);
    assert_eq!(texel(d, 4), [0, 0, 0, 0]);
    assert_eq!(texel(d, 5), [2, 0, 0, 0]);
    // Glyph 2 at texel 6: two headers then two entries naming curve texel 8.
    assert_eq!(texel(d, 6), [1, 2, 0, 0]);
    assert_eq!(texel(d, 7), [1, 3, 0, 0]);
    assert_eq!(texel(d, 8), [8, 0, 0, 0]);
    assert_eq!(texel(d, 9), [8, 0, 0, 0]);
    assert!(d[40..].iter().all(|&x| x == 0));
}

#[test]
fn glyph_headers_move_to_the_next_row_when_they_would_not_fit() {
    // Glyph 0 takes TEX_WIDTH - 2 texels: 2 headers plus TEX_WIDTH - 4 list entries.
    let n = TEX_WIDTH - 4;
    let big_list: Vec<usize> = (0..n / 2).collect();
    let g0 = glyph(1, vec![curve(0.0); n / 2], vec![big_list.clone()], vec![big_list]);
    // Glyph 1 has 4 headers: they do not fit in the last 2 texels of row 0.
    let g1 = glyph(2, vec![curve(1.0)], vec![vec![0], vec![0]], vec![vec![0], vec![]]);
    let glyphs = vec![g0, g1];
    let keys = vec![
        CurveSortKeys { x_max: vec![0; n / 2], y_max: vec![0; n / 2] },
        CurveSortKeys { x_max: vec![0], y_max: vec![0] },
    ];
    let packed = pack_glyph_data(&glyphs, &keys, 0.0f32);
    assert_eq!(packed.band_tex_height, 2);
    assert_eq!(packed.glyph_band_info[1].glyph_loc_x, 0);
    assert_eq!(packed.glyph_band_info[1].glyph_loc_y, 1);
    let d = &packed.band_tex_data;
    // The two padding texels at the end of row 0 stay empty.
    assert_eq!(texel(d, TEX_WIDTH - 2), [0, 0, 0, 0]);
    assert_eq!(texel(d, TEX_WIDTH - 1), [0, 0, 0, 0]);
    // Glyph 1's headers: offsets 4, 5, 6, 7 (the last band is empty).
    assert_eq!(texel(d, TEX_WIDTH), [1, 4, 0, 0]);
    assert_eq!(texel(d, TEX_WIDTH + 1), [1, 5, 0, 0]);
    assert_eq!(texel(d, TEX_WIDTH + 2), [1, 6, 0, 0]);
    assert_eq!(texel(d, TEX_WIDTH + 3), [0, 7, 0, 0]);
    // Its curve sits at curve texel n, column n, row 0.
    assert_eq!(texel(d, TEX_WIDTH + 4), [n as u32, 0, 0, 0]);
}

#[test]
fn curve_entries_name_texels_in_later_rows() {
    // 2100 curves take 4200 curve texels: the last ones are in row 1.
    let count = 2100;
    let g = glyph(3, vec![curve(0.0); count], vec![vec![count - 1]], vec![]);
    let glyphs = vec![g];
    let keys = vec![CurveSortKeys { x_max: vec![0; count], y_max: vec![0; count] }];
    let packed = pack_glyph_data(&glyphs, &keys, 0.0f32);
    assert_eq!(packed.curve_tex_height, 2);
    let ct = 2 * (count - 1);
    assert_eq!(texel(&packed.band_tex_data, 1), [(ct % TEX_WIDTH) as u32, (ct / TEX_WIDTH) as u32, 0, 0]);
    assert_eq!(texel(&packed.band_tex_data, 1), [4198 - TEX_WIDTH as u32, 1, 0, 0]);
}

#[test]
fn empty_run_packs_to_one_row_of_zeros() {
    let glyphs: Vec<SlugGlyph<f32>> = vec![];
    let packed = pack_glyph_data(&glyphs, &[], 0.0f32);
    assert_eq!(packed.curve_tex_height, 1);
    assert_eq!(packed.band_tex_height, 1);
    assert_eq!(packed.curve_tex_data.len(), TEX_WIDTH * 4);
    assert!(packed.band_tex_data.iter().all(|&x| x == 0));
    assert!(packed.glyph_band_info.is_empty());
}
