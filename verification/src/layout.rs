use vstd::prelude::*;

use crate::font::FontFace;
use crate::font::face_glyph_index;
use crate::font::face_glyph_hor_advance;
use crate::font::face_glyph_bounding_box;
use crate::packing::Bounds;
use std::collections::HashMap;

verus! {

/// A glyph placed on the text line, with its horizontal advance in font units.
#[derive(Clone, Copy, Debug)]
pub struct GlyphPlacement {
    pub glyph_id: u16,
    pub x_advance: u16,
}

/// The placement of character `c`: its glyph, advancing by the glyph's
/// horizontal advance or, when the face gives none, by one em. `None` when the
/// face has no glyph for `c`.
pub open spec fn placement_of(data: Seq<u8>, index: u32, upm: u16, c: char) -> Option<GlyphPlacement> {
    match face_glyph_index(data, index, c) {
        Some(g) => Some(
            GlyphPlacement {
                glyph_id: g,
                x_advance: match face_glyph_hor_advance(data, index, g) {
                    Some(a) => a,
                    None => upm,
                },
            },
        ),
        None => None,
    }
}

/// Placement of each character of a face.
pub open spec fn placement_fn(face: FontFace) -> spec_fn(char) -> Option<GlyphPlacement> {
    |c: char| placement_of(face.bytes(), face.face_index(), face.upm(), c)
}

/// Places the characters of `text` one after the other, one glyph per
/// character; characters without a glyph are skipped.
pub fn shape_simple(face: &FontFace, text: &str) -> (glyphs: Vec<GlyphPlacement>)
    ensures
        glyphs@ == text@.filter_map(placement_fn(*face)),
{
    let mut glyphs: Vec<GlyphPlacement> = Vec::new();
    let units = face.units_per_em();
    let ghost f = placement_fn(*face);
    broadcast use vstd::string::axiom_spec_iter;
    for ch in it: text.chars()
        invariant
            units == face.upm(),
            f == placement_fn(*face),
            glyphs@ == it.seq().take(it.index() as int).filter_map(f),
            it.seq() == text@,
    {
        proof {
            it.seq().lemma_filter_map_take_succ(f, it.index() as int);
        }
        if let Some(glyph_id) = face.glyph_index(ch) {
            let x_advance = match face.glyph_hor_advance(glyph_id) {
                Some(a) => a,
                None => units,
            };
            glyphs.push(GlyphPlacement { glyph_id, x_advance });
        }
    }
    proof {
        assert(text@.take(text@.len() as int) =~= text@);
    }
    glyphs
}


/// A distinct glyph of the text that has an outline, with its bounding box.
#[derive(Clone, Copy, Debug)]
pub struct GlyphSlot {
    pub glyph_id: u16,
    pub bounds: Bounds,
}

/// The glyphs of a run of placements.
pub open spec fn placement_ids(ps: Seq<GlyphPlacement>) -> Seq<u16> {
    ps.map_values(|p: GlyphPlacement| p.glyph_id)
}

/// The glyphs of a list of slots.
pub open spec fn slot_ids(slots: Seq<GlyphSlot>) -> Seq<u16> {
    slots.map_values(|s: GlyphSlot| s.glyph_id)
}

/// The distinct glyphs of `ids` that have an outline in face `index` of `data`,
/// in order of first appearance.
pub open spec fn outlined_glyphs(ids: Seq<u16>, data: Seq<u8>, index: u32) -> Seq<u16>
    decreases ids.len(),
{
    if ids.len() == 0 {
        Seq::empty()
    } else {
        let seen = outlined_glyphs(ids.drop_last(), data, index);
        let g = ids.last();
        if seen.contains(g) || face_glyph_bounding_box(data, index, g) is None {
            seen
        } else {
            seen.push(g)
        }
    }
}

/// The integer layout of a line of text: the placed glyphs, the distinct glyphs
/// to render, and for each placement the slot of its glyph (`None` for glyphs
/// without an outline, which only advance the pen).
#[derive(Debug)]
pub struct TextLayout {
    pub placements: Vec<GlyphPlacement>,
    pub glyphs: Vec<GlyphSlot>,
    pub placement_slots: Vec<Option<usize>>,
}

/// Lays out `text` in `face`: shapes it, collects the distinct glyphs that have
/// an outline in order of first appearance, and maps each placement to its
/// glyph's slot.
pub fn layout_text(face: &FontFace, text: &str) -> (layout: TextLayout)
    ensures
        layout.placements@ == text@.filter_map(placement_fn(*face)),
        slot_ids(layout.glyphs@) == outlined_glyphs(
            placement_ids(layout.placements@),
            face.bytes(),
            face.face_index(),
        ),
        forall|k: int| 0 <= k < layout.glyphs@.len() ==> face_glyph_bounding_box(
            face.bytes(),
            face.face_index(),
            (#[trigger] layout.glyphs@[k]).glyph_id,
        ) == Some(layout.glyphs@[k].bounds),
        layout.placement_slots@.len() == layout.placements@.len(),
        forall|p: int| 0 <= p < layout.placements@.len() ==> (#[trigger] layout.placement_slots@[p] is Some
            <==> slot_ids(layout.glyphs@).contains(layout.placements@[p].glyph_id)),
        forall|p: int| 0 <= p < layout.placements@.len() ==> (#[trigger] layout.placement_slots@[p] matches Some(k)
            ==> 0 <= k < layout.glyphs@.len() && layout.glyphs@[k as int].glyph_id == layout.placements@[p].glyph_id),
{
    broadcast use vstd::std_specs::hash::group_hash_axioms;
    let placements = shape_simple(face, text);
    let ghost ids = placement_ids(placements@);
    let ghost data = face.bytes();
    let ghost index = face.face_index();
    let mut glyph_map: HashMap<u16, usize> = HashMap::new();
    let mut glyphs: Vec<GlyphSlot> = Vec::new();
    proof {
        assert(ids.take(0) =~= Seq::<u16>::empty());
        assert(slot_ids(glyphs@) =~= Seq::<u16>::empty());
    }
    for i in 0..placements.len()
        invariant
            ids == placement_ids(placements@),
            data == face.bytes(),
            index == face.face_index(),
            slot_ids(glyphs@) == outlined_glyphs(ids.take(i as int), data, index),
            forall|k: int| 0 <= k < glyphs@.len() ==> face_glyph_bounding_box(data, index, (#[trigger] glyphs@[k]).glyph_id)
                == Some(glyphs@[k].bounds),
            forall|g: u16| #[trigger] glyph_map@.contains_key(g) <==> slot_ids(glyphs@).contains(g),
            forall|k: int| 0 <= k < glyphs@.len() ==> #[trigger] glyph_map@[glyphs@[k].glyph_id] == k,
    {
        let key = placements[i].glyph_id;
        proof {
            assert(ids.take(i + 1).drop_last() =~= ids.take(i as int));
            assert(ids.take(i + 1).last() == key);
        }
        if !glyph_map.contains_key(&key) {
            if let Some(bounds) = face.glyph_bounding_box(key) {
                let ghost before = glyphs@;
                glyph_map.insert(key, glyphs.len());
                glyphs.push(GlyphSlot { glyph_id: key, bounds });
                proof {
                    assert(slot_ids(glyphs@) =~= slot_ids(before).push(key));
                    assert forall|g: u16| #[trigger] glyph_map@.contains_key(g) <==> slot_ids(glyphs@).contains(g) by {
                        if g != key {
                            if slot_ids(glyphs@).contains(g) {
                                let k = choose|k: int| 0 <= k < slot_ids(glyphs@).len() && slot_ids(glyphs@)[k] == g;
                                assert(slot_ids(before)[k] == g);
                            }
                            if slot_ids(before).contains(g) {
                                let k = choose|k: int| 0 <= k < slot_ids(before).len() && slot_ids(before)[k] == g;
                                assert(slot_ids(glyphs@)[k] == g);
                            }
                        } else {
                            assert(slot_ids(glyphs@)[before.len() as int] == key);
                        }
                    }
                    assert forall|k: int| 0 <= k < glyphs@.len() implies #[trigger] glyph_map@[glyphs@[k].glyph_id] == k by {
                        if k < before.len() {
                            assert(glyphs@[k] == before[k]);
                            assert(slot_ids(before)[k] == before[k].glyph_id);
                            assert(before[k].glyph_id != key);
                        }
                    }
                }
            }
        }
    }
    proof {
        assert(ids.take(placements@.len() as int) =~= ids);
    }
    let mut placement_slots: Vec<Option<usize>> = Vec::new();
    for p in 0..placements.len()
        invariant
            ids == placement_ids(placements@),
            forall|g: u16| #[trigger] glyph_map@.contains_key(g) <==> slot_ids(glyphs@).contains(g),
            forall|k: int| 0 <= k < glyphs@.len() ==> #[trigger] glyph_map@[glyphs@[k].glyph_id] == k,
            placement_slots@.len() == p,
            forall|q: int| 0 <= q < p ==> (#[trigger] placement_slots@[q] is Some
                <==> slot_ids(glyphs@).contains(placements@[q].glyph_id)),
            forall|q: int| 0 <= q < p ==> (#[trigger] placement_slots@[q] matches Some(k)
                ==> 0 <= k < glyphs@.len() && glyphs@[k as int].glyph_id == placements@[q].glyph_id),
    {
        let key = placements[p].glyph_id;
        let slot = match glyph_map.get(&key) {
            Some(idx) => Some(*idx),
            None => None,
        };
        proof {
            if glyph_map@.contains_key(key) {
                let k = choose|k: int| 0 <= k < slot_ids(glyphs@).len() && slot_ids(glyphs@)[k] == key;
                assert(glyphs@[k].glyph_id == key);
                assert(glyph_map@[key] == k);
            }
        }
        placement_slots.push(slot);
    }
    TextLayout { placements, glyphs, placement_slots }
}


/// The glyph slots are distinct, and hold exactly the glyphs of the text that
/// have an outline.
pub proof fn lemma_outlined_glyphs(ids: Seq<u16>, data: Seq<u8>, index: u32)
    ensures
        outlined_glyphs(ids, data, index).no_duplicates(),
        forall|g: u16| #[trigger] outlined_glyphs(ids, data, index).contains(g)
            <==> (ids.contains(g) && face_glyph_bounding_box(data, index, g) is Some),
    decreases ids.len(),
{
    if ids.len() > 0 {
        let d = ids.drop_last();
        let x = ids.last();
        lemma_outlined_glyphs(d, data, index);
        let seen = outlined_glyphs(d, data, index);
        let out = outlined_glyphs(ids, data, index);
        assert(ids =~= d.push(x));
        assert forall|g: u16| #[trigger] ids.contains(g) <==> (d.contains(g) || g == x) by {
            if ids.contains(g) {
                let k = choose|k: int| 0 <= k < ids.len() && ids[k] == g;
                if k < d.len() {
                    assert(d[k] == g);
                }
            }
            if d.contains(g) {
                let k = choose|k: int| 0 <= k < d.len() && d[k] == g;
                assert(ids[k] == g);
            }
            if g == x {
                assert(ids[ids.len() - 1] == g);
            }
        }
        if !(seen.contains(x) || face_glyph_bounding_box(data, index, x) is None) {
            assert(out == seen.push(x));
            assert forall|g: u16| #[trigger] out.contains(g) <==> (seen.contains(g) || g == x) by {
                if out.contains(g) {
                    let k = choose|k: int| 0 <= k < out.len() && out[k] == g;
                    if k < seen.len() {
                        assert(seen[k] == g);
                    }
                }
                if seen.contains(g) {
                    let k = choose|k: int| 0 <= k < seen.len() && seen[k] == g;
                    assert(out[k] == g);
                }
                if g == x {
                    assert(out[seen.len() as int] == g);
                }
            }
        }
    }
}


/// Every character that the face maps to a glyph is placed, with that glyph and
/// with the glyph's advance (one em when the face gives none); characters the
/// face does not map are not placed.
pub proof fn lemma_placement_of(data: Seq<u8>, index: u32, upm: u16, c: char)
    ensures
        face_glyph_index(data, index, c) is None ==> placement_of(data, index, upm, c) is None,
        face_glyph_index(data, index, c) matches Some(g) ==> placement_of(data, index, upm, c) matches Some(p)
            && p.glyph_id == g
            && (face_glyph_hor_advance(data, index, g) matches Some(a) ==> p.x_advance == a)
            && (face_glyph_hor_advance(data, index, g) is None ==> p.x_advance == upm),
{
}

/// Shaping places one glyph per mapped character, in text order: the placed
/// glyphs are exactly the glyphs of the mapped characters.
pub proof fn lemma_shape_places_every_mapped_char(face: FontFace, text: Seq<char>)
    ensures
        placement_ids(text.filter_map(placement_fn(face))) == text.filter_map(
            |c: char| face_glyph_index(face.bytes(), face.face_index(), c),
        ),
    decreases text.len(),
{
    let f = placement_fn(face);
    let gi = |c: char| face_glyph_index(face.bytes(), face.face_index(), c);
    if text.len() == 0 {
        assert(placement_ids(text.filter_map(f)) =~= text.filter_map(gi));
    } else {
        let d = text.drop_last();
        lemma_shape_places_every_mapped_char(face, d);
        lemma_placement_of(face.bytes(), face.face_index(), face.upm(), text.last());
        assert(text.filter_map(f) == match f(text.last()) {
            Some(p) => d.filter_map(f) + seq![p],
            None => d.filter_map(f),
        });
        assert(text.filter_map(gi) == match gi(text.last()) {
            Some(g) => d.filter_map(gi) + seq![g],
            None => d.filter_map(gi),
        });
        assert(placement_ids(text.filter_map(f)) =~= text.filter_map(gi));
    }
}

} // verus!
