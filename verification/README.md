# slugtext

The integer core of a GPU text renderer in the style of Slug: glyph curves are
packed into a curve texture, and each glyph's horizontal and vertical bands
(lists of the curves that cross them) into a band texture that a fragment
shader walks.

`src/` is verified with Verus:

- `texture` — texture geometry (`TEX_WIDTH`, row count, texel offsets).
- `bands` — distribution of a glyph's curves over its bands.
- `sort` — stable sort of curve indices by decreasing key, and the
  order-preserving code of a single-precision bit pattern used as key.
- `packing` — the curve and band textures of a run of glyphs, with the laws of
  their layout (headers in one row, disjoint glyph blocks, every band entry
  naming its own curve).
- `font` — a parsed font face; glyph lookups go to `ttf-parser`.
- `layout` — shaping of a line and the distinct glyphs to render.
- `vertex` — triangle indices, shader words, little-endian bytes and the split
  of the flat vertex array into mesh attributes.

`app/` holds the floating-point geometry (outline flattening, band spans,
vertex positions) and the construction of Bevy meshes and images.
