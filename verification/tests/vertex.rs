use slugtext::packing::GlyphBandInfo;
use slugtext::vertex::band_max_word;
use slugtext::vertex::glyph_loc_word;
use slugtext::vertex::quad_indices;
use slugtext::vertex::split_vertex_attributes;
use slugtext::vertex::words_to_le_bytes;

#[test]
fn quad_indices_make_two_triangles_per_quad() {
    assert_eq!(quad_indices(0), Vec::<u32>::new());
    assert_eq!(quad_indices(2), vec![0, 1, 2, 0, 2, 3, 4, 5, 6, 4, 6, 7]);
    let many = quad_indices(100);
    assert!(many.iter().all(|&i| i < 400));
}

#[test]
fn glyph_loc_word_packs_row_high() {
    assert_eq!(glyph_loc_word(GlyphBandInfo { glyph_loc_x: 6, glyph_loc_y: 0 }), 6);
    assert_eq!(glyph_loc_word(GlyphBandInfo { glyph_loc_x: 3, glyph_loc_y: 2 }), 0x0002_0003);
    assert_eq!(glyph_loc_word(GlyphBandInfo { glyph_loc_x: 0xFFFF, glyph_loc_y: 0xFFFF }), 0xFFFF_FFFF);
}

#[test]
fn band_max_word_uses_last_band_numbers() {
    assert_eq!(band_max_word(8, 8), (7 << 16) | 7);
    assert_eq!(band_max_word(0, 0), 0);
    assert_eq!(band_max_word(1, 5), 4);
    assert_eq!(band_max_word(3, 1), 2 << 16);
}

#[test]
fn words_to_le_bytes_is_little_endian() {
    let bytes = words_to_le_bytes(&vec![0x0403_0201, 0xFF00_00AB]);
    assert_eq!(bytes, vec![1, 2, 3, 4, 0xAB, 0, 0, 0xFF]);
    for v in [0u32, 1, 0x1234_5678, u32::MAX] {
        let b = words_to_le_bytes(&vec![v]);
        assert_eq!(b, v.to_le_bytes().to_vec());
        assert_eq!(u32::from_le_bytes([b[0], b[1], b[2], b[3]]), v);
    }
}

#[test]
fn split_vertex_attributes_groups_sixteen_values() {
    let values: Vec<f32> = (0..33).map(|i| i as f32).collect();
    let attrs = split_vertex_attributes(&values, 0.0f32);
    assert_eq!(attrs.position.len(), 2);
    assert_eq!(attrs.position[1], [16.0, 17.0, 0.0]);
    assert_eq!(attrs.normal[0], [2.0, 3.0, 0.0]);
    assert_eq!(attrs.pos[0], [0.0, 1.0, 2.0, 3.0]);
    assert_eq!(attrs.tex[1], [20.0, 21.0, 22.0, 23.0]);
    assert_eq!(attrs.jac[0], [8.0, 9.0, 10.0, 11.0]);
    assert_eq!(attrs.bnd[1], [28.0, 29.0, 30.0, 31.0]);
}
