use slugtext::font::FontFace;
use slugtext::layout::layout_text;
use slugtext::layout::shape_simple;

fn be16(out: &mut Vec<u8>, v: u16) {
    out.extend_from_slice(&v.to_be_bytes());
}

fn be32(out: &mut Vec<u8>, v: u32) {
    out.extend_from_slice(&v.to_be_bytes());
}

/// A font file with three glyphs: 0 (empty), 1 ('A', a rectangle from (100, 0)
/// to (500, 700)) and 2 ('B', empty). `with_hmtx` adds advances 500, 600, 250.
fn test_font(with_hmtx: bool, units_per_em: u16) -> Vec<u8> {
    let mut head = Vec::new();
    be32(&mut head, 0x0001_0000);
    be32(&mut head, 0x0001_0000);
    be32(&mut head, 0);
    be32(&mut head, 0x5F0F_3CF5);
    be16(&mut head, 0);
    be16(&mut head, units_per_em);
    head.extend_from_slice(&[0u8; 16]);
    for v in [100i16, 0, 500, 700] {
        head.extend_from_slice(&v.to_be_bytes());
    }
    be16(&mut head, 0);
    be16(&mut head, 8);
    be16(&mut head, 2);
    be16(&mut head, 1); // long loca offsets
    be16(&mut head, 0);

    let mut hhea = Vec::new();
    be32(&mut hhea, 0x0001_0000);
    hhea.extend_from_slice(&800i16.to_be_bytes());
    hhea.extend_from_slice(&(-200i16).to_be_bytes());
    hhea.extend_from_slice(&0i16.to_be_bytes());
    hhea.extend_from_slice(&[0u8; 24]);
    be16(&mut hhea, 3);

    let mut maxp = Vec::new();
    be32(&mut maxp, 0x0000_5000);
    be16(&mut maxp, 3);

    let mut hmtx = Vec::new();
    for adv in [500u16, 600, 250] {
        be16(&mut hmtx, adv);
        be16(&mut hmtx, 0);
    }

    let mut cmap = Vec::new();
    be16(&mut cmap, 0);
    be16(&mut cmap, 1);
    be16(&mut cmap, 3);
    be16(&mut cmap, 10);
    be32(&mut cmap, 12);
    be16(&mut cmap, 12);
    be16(&mut cmap, 0);
    be32(&mut cmap, 28);
    be32(&mut cmap, 0);
    be32(&mut cmap, 1);
    be32(&mut cmap, 'A' as u32);
    be32(&mut cmap, 'B' as u32);
    be32(&mut cmap, 1);

    let mut glyph = Vec::new();
    glyph.extend_from_slice(&1i16.to_be_bytes());
    for v in [100i16, 0, 500, 700] {
        glyph.extend_from_slice(&v.to_be_bytes());
    }
    be16(&mut glyph, 3); // last point of the contour
    be16(&mut glyph, 0); // no instructions
    glyph.extend_from_slice(&[1u8; 4]);
    for dx in [100i16, 400, 0, -400] {
        glyph.extend_from_slice(&dx.to_be_bytes());
    }
    for dy in [0i16, 0, 700, 0] {
        glyph.extend_from_slice(&dy.to_be_bytes());
    }
    let glyph_len = glyph.len() as u32;

    let mut loca = Vec::new();
    for off in [0u32, 0, glyph_len, glyph_len] {
        be32(&mut loca, off);
    }

    let mut tables: Vec<(&[u8; 4], Vec<u8>)> = vec![
        (b"cmap", cmap),
        (b"glyf", glyph),
        (b"head", head),
        (b"hhea", hhea),
    ];
    if with_hmtx {
        tables.push((b"hmtx", hmtx));
    }
    tables.push((b"loca", loca));
    tables.push((b"maxp", maxp));

    let mut out = Vec::new();
    be32(&mut out, 0x0001_0000);
    be16(&mut out, tables.len() as u16);
    be16(&mut out, 0);
    be16(&mut out, 0);
    be16(&mut out, 0);
    let mut offset = 12 + 16 * tables.len();
    let mut body = Vec::new();
    for (tag, data) in &tables {
        out.extend_from_slice(&tag[..]);
        be32(&mut out, 0);
        be32(&mut out, offset as u32);
        be32(&mut out, data.len() as u32);
        body.extend_from_slice(data);
        while body.len() % 4 != 0 {
            body.push(0);
        }
        offset = 12 + 16 * tables.len() + body.len();
    }
    out.extend_from_slice(&body);
    out
}

#[test]
fn font_face_parses_and_reports_units_per_em() {
    let data = test_font(true, 1000);
    let face = FontFace::parse(&data, 0).expect("the test font parses");
    assert_eq!(face.units_per_em(), 1000);
    assert_eq!(face.index(), 0);
    assert_eq!(face.data().len(), data.len());
}

#[test]
fn font_face_rejects_bad_data() {
    assert!(FontFace::parse(&[0u8, 1, 2, 3], 0).is_none());
    let data = test_font(true, 1000);
    assert!(FontFace::parse(&data, 1).is_none());
    // Units per em outside 16..=16384 make the face invalid.
    let bad = test_font(true, 8);
    assert!(FontFace::parse(&bad, 0).is_none());
}

#[test]
fn glyph_queries_go_through_the_font() {
    let data = test_font(true, 1000);
    let face = FontFace::parse(&data, 0).unwrap();
    assert_eq!(face.glyph_index('A'), Some(1));
    assert_eq!(face.glyph_index('B'), Some(2));
    assert_eq!(face.glyph_index('C'), None);
    assert_eq!(face.glyph_hor_advance(1), Some(600));
    assert_eq!(face.glyph_hor_advance(2), Some(250));
    let b = face.glyph_bounding_box(1).expect("glyph 1 has an outline");
    assert_eq!((b.x_min, b.y_min, b.x_max, b.y_max), (100, 0, 500, 700));
    assert!(face.glyph_bounding_box(2).is_none());
}

#[test]
fn shape_simple_skips_unmapped_characters() {
    let data = test_font(true, 1000);
    let face = FontFace::parse(&data, 0).unwrap();
    let placed = shape_simple(&face, "ACB A");
    let got: Vec<(u16, u16)> = placed.iter().map(|p| (p.glyph_id, p.x_advance)).collect();
    assert_eq!(got, vec![(1, 600), (2, 250), (1, 600)]);
    assert!(shape_simple(&face, "").is_empty());
}

#[test]
fn shape_simple_falls_back_to_one_em() {
    let data = test_font(false, 2048);
    let face = FontFace::parse(&data, 0).unwrap();
    let placed = shape_simple(&face, "AB");
    let got: Vec<(u16, u16)> = placed.iter().map(|p| (p.glyph_id, p.x_advance)).collect();
    assert_eq!(got, vec![(1, 2048), (2, 2048)]);
}

#[test]
fn layout_keeps_distinct_outlined_glyphs() {
    let data = test_font(true, 1000);
    let face = FontFace::parse(&data, 0).unwrap();
    let layout = layout_text(&face, "ABAAB");
    assert_eq!(layout.placements.len(), 5);
    assert_eq!(layout.glyphs.len(), 1);
    assert_eq!(layout.glyphs[0].glyph_id, 1);
    assert_eq!(layout.glyphs[0].bounds.x_max, 500);
    assert_eq!(layout.placement_slots, vec![Some(0), None, Some(0), Some(0), None]);
}
