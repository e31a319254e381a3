use vstd::prelude::*;

use crate::packing::Bounds;

verus! {

/// Units per em of face `index` of the font file `data`; `None` when the face
/// does not parse.
pub uninterp spec fn face_units_per_em(data: Seq<u8>, index: u32) -> Option<u16>;

/// The glyph that face `index` of `data` maps character `c` to; `None` when the
/// face does not parse or has no glyph for `c`.
pub uninterp spec fn face_glyph_index(data: Seq<u8>, index: u32, c: char) -> Option<u16>;

/// The horizontal advance of `glyph` in face `index` of `data`; `None` when the
/// face does not parse or does not give one.
pub uninterp spec fn face_glyph_hor_advance(data: Seq<u8>, index: u32, glyph: u16) -> Option<u16>;

/// The tight bounding box of `glyph`'s outline in face `index` of `data`;
/// `None` when the face does not parse or the glyph has no outline.
pub uninterp spec fn face_glyph_bounding_box(data: Seq<u8>, index: u32, glyph: u16) -> Option<Bounds>;

/// Parses face `index` of `data` with `ttf_parser::Face::parse` and reads
/// `Face::units_per_em`. Claims: the result is the named value, and, as the
/// documentation of `units_per_em` guarantees, lies in 16..=16384.
#[verifier::external_body]
fn ttf_units_per_em(data: &[u8], index: u32) -> (upm: Option<u16>)
    ensures
        upm == face_units_per_em(data@, index),
        upm matches Some(u) ==> 16 <= u <= 16384,
{
    match ttf_parser::Face::parse(data, index) {
        Ok(face) => Some(face.units_per_em()),
        Err(_) => None,
    }
}

/// Parses face `index` of `data` and calls `Face::glyph_index` for `c`.
/// Claims only that the result is the named value.
#[verifier::external_body]
fn ttf_glyph_index(data: &[u8], index: u32, c: char) -> (glyph: Option<u16>)
    ensures
        glyph == face_glyph_index(data@, index, c),
{
    match ttf_parser::Face::parse(data, index) {
        Ok(face) => face.glyph_index(c).map(|g| g.0),
        Err(_) => None,
    }
}

/// Parses face `index` of `data` and calls `Face::glyph_hor_advance` for
/// `glyph`. Claims only that the result is the named value.
#[verifier::external_body]
fn ttf_glyph_hor_advance(data: &[u8], index: u32, glyph: u16) -> (advance: Option<u16>)
    ensures
        advance == face_glyph_hor_advance(data@, index, glyph),
{
    match ttf_parser::Face::parse(data, index) {
        Ok(face) => face.glyph_hor_advance(ttf_parser::GlyphId(glyph)),
        Err(_) => None,
    }
}

/// Parses face `index` of `data` and calls `Face::glyph_bounding_box` for
/// `glyph`, copying the four corners of the `Rect` into a `Bounds`. Claims only
/// that the result is the named value.
#[verifier::external_body]
fn ttf_glyph_bounding_box(data: &[u8], index: u32, glyph: u16) -> (bounds: Option<Bounds>)
    ensures
        bounds == face_glyph_bounding_box(data@, index, glyph),
{
    match ttf_parser::Face::parse(data, index) {
        Ok(face) => match face.glyph_bounding_box(ttf_parser::GlyphId(glyph)) {
            Some(r) => Some(Bounds { x_min: r.x_min, y_min: r.y_min, x_max: r.x_max, y_max: r.y_max }),
            None => None,
        },
        Err(_) => None,
    }
}

/// A font face that parses: the font file, the face's index in it, and its
/// units per em.
pub struct FontFace<'a> {
    data: &'a [u8],
    index: u32,
    units_per_em: u16,
}

impl<'a> FontFace<'a> {
    #[verifier::type_invariant]
    spec fn parsed(&self) -> bool {
        &&& face_units_per_em(self.data@, self.index) == Some(self.units_per_em)
        &&& 16 <= self.units_per_em <= 16384
    }

    /// The font file.
    pub closed spec fn bytes(&self) -> Seq<u8> {
        self.data@
    }

    /// The face's index in the font file.
    pub closed spec fn face_index(&self) -> u32 {
        self.index
    }

    /// The face's units per em.
    pub closed spec fn upm(&self) -> u16 {
        self.units_per_em
    }

    /// Opens face `index` of the font file `data`; `None` when it does not parse.
    pub fn parse(data: &'a [u8], index: u32) -> (face: Option<FontFace<'a>>)
        ensures
            face is Some <==> face_units_per_em(data@, index) is Some,
            face matches Some(f) ==> f.bytes() == data@ && f.face_index() == index,
    {
        match ttf_units_per_em(data, index) {
            Some(units_per_em) => Some(FontFace { data, index, units_per_em }),
            None => None,
        }
    }

    /// The face's units per em.
    pub fn units_per_em(&self) -> (upm: u16)
        ensures
            upm == self.upm(),
            face_units_per_em(self.bytes(), self.face_index()) == Some(upm),
            16 <= upm <= 16384,
    {
        proof {
            use_type_invariant(self);
        }
        self.units_per_em
    }

    /// The glyph for character `c`, if the face has one.
    pub fn glyph_index(&self, c: char) -> (glyph: Option<u16>)
        ensures
            glyph == face_glyph_index(self.bytes(), self.face_index(), c),
    {
        ttf_glyph_index(self.data, self.index, c)
    }

    /// The horizontal advance of `glyph`, if the face gives one.
    pub fn glyph_hor_advance(&self, glyph: u16) -> (advance: Option<u16>)
        ensures
            advance == face_glyph_hor_advance(self.bytes(), self.face_index(), glyph),
    {
        ttf_glyph_hor_advance(self.data, self.index, glyph)
    }

    /// The bounding box of `glyph`'s outline, if it has one.
    pub fn glyph_bounding_box(&self, glyph: u16) -> (bounds: Option<Bounds>)
        ensures
            bounds == face_glyph_bounding_box(self.bytes(), self.face_index(), glyph),
    {
        ttf_glyph_bounding_box(self.data, self.index, glyph)
    }

    /// The font file.
    pub fn data(&self) -> (data: &'a [u8])
        ensures
            data@ == self.bytes(),
    {
        self.data
    }

    /// The face's index in the font file.
    pub fn index(&self) -> (index: u32)
        ensures
            index == self.face_index(),
    {
        self.index
    }
}

} // verus!
