use vstd::prelude::*;

verus! {

/// Width, in texels, of both data textures.
pub const TEX_WIDTH: usize = 4096;

/// Number of texture rows needed to hold `texels` texels: never fewer than one.
pub open spec fn spec_tex_height(texels: nat) -> nat {
    let t: int = if texels == 0 { 1 } else { texels as int };
    let rows: int = (t + TEX_WIDTH - 1) / (TEX_WIDTH as int);
    if rows <= 0 { 1 } else { rows as nat }
}

/// Number of rows of a `TEX_WIDTH`-wide texture that holds `texels` texels.
pub fn tex_height(texels: usize) -> (rows: usize)
    requires
        texels + TEX_WIDTH <= usize::MAX,
    ensures
        rows == spec_tex_height(texels as nat),
{
    let t: usize = if texels == 0 { 1 } else { texels };
    let rows: usize = (t + TEX_WIDTH - 1) / TEX_WIDTH;
    if rows == 0 { 1 } else { rows }
}

/// The index of the first of the four values of texel `i`, computed from the
/// texel's column and row.
pub fn texel_offset(i: usize) -> (off: usize)
    requires
        4 * i + 3 <= usize::MAX,
    ensures
        off == 4 * i,
{
    let x = i % TEX_WIDTH;
    let y = i / TEX_WIDTH;
    assert(y * TEX_WIDTH + x == i);
    (y * TEX_WIDTH + x) * 4
}


/// The texture is just tall enough: its rows hold all `texels` texels, and one
/// row fewer would not (an empty texture still has one row).
pub proof fn lemma_tex_height_covers(texels: nat)
    ensures
        spec_tex_height(texels) >= 1,
        TEX_WIDTH * spec_tex_height(texels) >= texels,
        texels > 0 ==> TEX_WIDTH * (spec_tex_height(texels) - 1) < texels,
{
}

} // verus!
