use vstd::prelude::*;

use crate::bands::GlyphBands;
use crate::bands::BandEntry;
use crate::bands::entry_lists;
use crate::sort::sort_by_key_desc;
use crate::sort::sort_indices_by_key_desc;
use crate::sort::lemma_sort_len_bound;
use crate::sort::lemma_sort_by_key_desc;
use crate::sort::sorted_desc;
use crate::sort::key_is;
use crate::texture::TEX_WIDTH;
use crate::texture::spec_tex_height;
use crate::texture::tex_height;
use crate::texture::texel_offset;

verus! {

/// A quadratic Bézier curve: start point, control point, end point. The
/// coordinate type is left open; the renderer uses single precision numbers.
#[derive(Clone, Copy, Debug)]
pub struct QuadCurve<C> {
    pub p0x: C,
    pub p0y: C,
    pub p1x: C,
    pub p1y: C,
    pub p2x: C,
    pub p2y: C,
}

/// A glyph's bounding box in font units.
#[derive(Clone, Copy, Debug)]
pub struct Bounds {
    pub x_min: i16,
    pub y_min: i16,
    pub x_max: i16,
    pub y_max: i16,
}

/// One glyph ready for packing: its curves, its bands and its box.
#[derive(Debug)]
pub struct SlugGlyph<C> {
    pub glyph_id: u16,
    pub curves: Vec<QuadCurve<C>>,
    pub bands: GlyphBands,
    pub bounds: Bounds,
}

/// Where a glyph's band data starts in the band texture.
#[derive(Clone, Copy, Debug)]
pub struct GlyphBandInfo {
    pub glyph_loc_x: u16,
    pub glyph_loc_y: u16,
}

/// The two data textures of a run of glyphs and where each glyph lives in them.
#[derive(Debug)]
pub struct PackedGlyphData<C> {
    pub curve_tex_data: Vec<C>,
    pub band_tex_data: Vec<u32>,
    pub curve_tex_height: usize,
    pub band_tex_height: usize,
    pub glyph_band_info: Vec<GlyphBandInfo>,
    pub glyph_curve_starts: Vec<usize>,
}

// ---------------------------------------------------------------------------
// Curve texture
// ---------------------------------------------------------------------------

/// The curve texels taken by the first `n` glyphs: two per curve.
pub open spec fn curve_texels_before<C>(glyphs: Seq<SlugGlyph<C>>, n: int) -> int
    decreases n,
{
    if n <= 0 {
        0
    } else {
        curve_texels_before(glyphs, n - 1) + 2 * glyphs[n - 1].curves@.len()
    }
}

/// The curve texels taken by all glyphs.
pub open spec fn curve_texel_total<C>(glyphs: Seq<SlugGlyph<C>>) -> int {
    curve_texels_before(glyphs, glyphs.len() as int)
}

pub proof fn lemma_curve_texels_monotone<C>(glyphs: Seq<SlugGlyph<C>>, m: int, n: int)
    requires
        0 <= m <= n,
    ensures
        0 <= curve_texels_before(glyphs, m) <= curve_texels_before(glyphs, n),
    decreases n,
{
    if m < n {
        lemma_curve_texels_monotone(glyphs, m, n - 1);
    } else if n > 0 {
        lemma_curve_texels_monotone(glyphs, n - 1, n - 1);
    }
}

/// The eight texture values starting at `4 * t` hold curve `c`: the start and
/// control points in texel `t`, the end point and two zeros in texel `t + 1`.
pub open spec fn holds_curve<C>(d: Seq<C>, t: int, c: QuadCurve<C>, zero: C) -> bool {
    &&& d[4 * t] == c.p0x
    &&& d[4 * t + 1] == c.p0y
    &&& d[4 * t + 2] == c.p1x
    &&& d[4 * t + 3] == c.p1y
    &&& d[4 * t + 4] == c.p2x
    &&& d[4 * t + 5] == c.p2y
    &&& d[4 * t + 6] == zero
    &&& d[4 * t + 7] == zero
}

proof fn lemma_holds_curve_frame<C>(d1: Seq<C>, d2: Seq<C>, t: int, c: QuadCurve<C>, zero: C, bound: int)
    requires
        holds_curve(d1, t, c, zero),
        0 <= t,
        4 * t + 8 <= bound,
        forall|i: int| 0 <= i < bound ==> #[trigger] d2[i] == d1[i],
    ensures
        holds_curve(d2, t, c, zero),
{
    assert(d2[4 * t] == d1[4 * t]);
    assert(d2[4 * t + 1] == d1[4 * t + 1]);
    assert(d2[4 * t + 2] == d1[4 * t + 2]);
    assert(d2[4 * t + 3] == d1[4 * t + 3]);
    assert(d2[4 * t + 4] == d1[4 * t + 4]);
    assert(d2[4 * t + 5] == d1[4 * t + 5]);
    assert(d2[4 * t + 6] == d1[4 * t + 6]);
    assert(d2[4 * t + 7] == d1[4 * t + 7]);
}

/// A vector of `n` copies of `value`.
pub fn filled<T: Copy>(value: T, n: usize) -> (v: Vec<T>)
    ensures
        v@.len() == n,
        forall|i: int| 0 <= i < n ==> #[trigger] v@[i] == value,
{
    let mut v: Vec<T> = Vec::with_capacity(n);
    for i in 0..n
        invariant
            v@.len() == i,
            forall|j: int| 0 <= j < i ==> #[trigger] v@[j] == value,
    {
        v.push(value);
    }
    v
}

/// Packs the curves of all glyphs, in order, two texels per curve, into a
/// `TEX_WIDTH`-wide texture of four values per texel; returns the texture data,
/// its height and the first texel of each glyph's curves.
pub fn pack_curve_texture<C: Copy>(glyphs: &[SlugGlyph<C>], zero: C) -> (packed: (Vec<C>, usize, Vec<usize>))
    requires
        4 * (curve_texel_total(glyphs@) + TEX_WIDTH) <= usize::MAX,
    ensures
        packed.1 == spec_tex_height(curve_texel_total(glyphs@) as nat),
        packed.0@.len() == TEX_WIDTH * packed.1 * 4,
        packed.2@.len() == glyphs@.len(),
        forall|n: int| 0 <= n < glyphs@.len() ==> #[trigger] packed.2@[n] == curve_texels_before(glyphs@, n),
        forall|n: int, j: int|
            0 <= n < glyphs@.len() && 0 <= j < glyphs@[n].curves@.len() ==> holds_curve(
                packed.0@,
                curve_texels_before(glyphs@, n) + 2 * j,
                #[trigger] glyphs@[n].curves@[j],
                zero,
            ),
        forall|i: int| 4 * curve_texel_total(glyphs@) <= i < packed.0@.len() ==> #[trigger] packed.0@[i] == zero,
{
    let ghost gs = glyphs@;
    let ghost total = curve_texel_total(gs);
    // Total number of curve texels.
    let mut total_curve_texels: usize = 0;
    for n in 0..glyphs.len()
        invariant
            gs == glyphs@,
            total == curve_texel_total(gs),
            4 * (total + TEX_WIDTH) <= usize::MAX,
            total_curve_texels == curve_texels_before(gs, n as int),
    {
        proof {
            lemma_curve_texels_monotone(gs, n + 1, gs.len() as int);
        }
        total_curve_texels = total_curve_texels + glyphs[n].curves.len() * 2;
    }
    let curve_tex_height = tex_height(total_curve_texels);
    proof {
        assert(TEX_WIDTH * curve_tex_height <= total + TEX_WIDTH) by (nonlinear_arith)
            requires
                curve_tex_height == spec_tex_height(total as nat),
                total >= 0,
                TEX_WIDTH == 4096;
    }
    let mut data = filled(zero, TEX_WIDTH * curve_tex_height * 4);
    let mut starts: Vec<usize> = Vec::with_capacity(glyphs.len());
    let mut idx: usize = 0;
    for n in 0..glyphs.len()
        invariant
            gs == glyphs@,
            total == curve_texel_total(gs),
            4 * (total + TEX_WIDTH) <= usize::MAX,
            data@.len() == TEX_WIDTH * curve_tex_height * 4,
            TEX_WIDTH * curve_tex_height >= total,
            idx == curve_texels_before(gs, n as int),
            starts@.len() == n,
            forall|m: int| 0 <= m < n ==> #[trigger] starts@[m] == curve_texels_before(gs, m),
            forall|m: int, j: int|
                0 <= m < n && 0 <= j < gs[m].curves@.len() ==> holds_curve(
                    data@,
                    curve_texels_before(gs, m) + 2 * j,
                    #[trigger] gs[m].curves@[j],
                    zero,
                ),
            forall|i: int| 4 * idx <= i < data@.len() ==> #[trigger] data@[i] == zero,
    {
        proof {
            lemma_curve_texels_monotone(gs, n + 1, gs.len() as int);
        }
        starts.push(idx);
        let curves = &glyphs[n].curves;
        let ghost base = idx;
        for j in 0..curves.len()
            invariant
                gs == glyphs@,
                *curves == gs[n as int].curves,
                n < gs.len(),
                total == curve_texel_total(gs),
                4 * (total + TEX_WIDTH) <= usize::MAX,
                data@.len() == TEX_WIDTH * curve_tex_height * 4,
                TEX_WIDTH * curve_tex_height >= total,
                base == curve_texels_before(gs, n as int),
                base + 2 * curves@.len() <= total,
                idx == base + 2 * j,
                forall|m: int, jj: int|
                    0 <= m < n && 0 <= jj < gs[m].curves@.len() ==> holds_curve(
                        data@,
                        curve_texels_before(gs, m) + 2 * jj,
                        #[trigger] gs[m].curves@[jj],
                        zero,
                    ),
                forall|jj: int|
                    0 <= jj < j ==> holds_curve(data@, base + 2 * jj, #[trigger] curves@[jj], zero),
                forall|i: int| 4 * idx <= i < data@.len() ==> #[trigger] data@[i] == zero,
        {
            let curve = curves[j];
            let off0 = texel_offset(idx);
            let off1 = texel_offset(idx + 1);
            let ghost before = data@;
            data.set(off0, curve.p0x);
            data.set(off0 + 1, curve.p0y);
            data.set(off0 + 2, curve.p1x);
            data.set(off0 + 3, curve.p1y);
            data.set(off1, curve.p2x);
            data.set(off1 + 1, curve.p2y);
            proof {
                assert forall|i: int| 0 <= i < 4 * idx implies #[trigger] data@[i] == before[i] by {}
                assert forall|m: int, jj: int|
                    0 <= m < n && 0 <= jj < gs[m].curves@.len() implies holds_curve(
                        data@,
                        curve_texels_before(gs, m) + 2 * jj,
                        #[trigger] gs[m].curves@[jj],
                        zero,
                    ) by {
                    lemma_curve_texels_monotone(gs, m + 1, n as int);
                    lemma_curve_texels_monotone(gs, m, m + 1);
                    assert(curve_texels_before(gs, m + 1) == curve_texels_before(gs, m) + 2 * gs[m].curves@.len());
                    assert(curve_texels_before(gs, m) + 2 * jj + 2 <= idx);
                    assert(holds_curve(before, curve_texels_before(gs, m) + 2 * jj, gs[m].curves@[jj], zero));
                    lemma_holds_curve_frame(before, data@, curve_texels_before(gs, m) + 2 * jj, gs[m].curves@[jj], zero, 4 * idx);
                }
                assert forall|jj: int| 0 <= jj < j + 1 implies holds_curve(data@, base + 2 * jj, #[trigger] curves@[jj], zero) by {
                    if jj < j {
                        assert(holds_curve(before, base + 2 * jj, curves@[jj], zero));
                        lemma_holds_curve_frame(before, data@, base + 2 * jj, curves@[jj], zero, 4 * idx);
                    }
                }
            }
            idx = idx + 2;
        }
        proof {
            assert forall|m: int, jj: int|
                0 <= m < n + 1 && 0 <= jj < gs[m].curves@.len() implies holds_curve(
                    data@,
                    curve_texels_before(gs, m) + 2 * jj,
                    #[trigger] gs[m].curves@[jj],
                    zero,
                ) by {
                if m == n {
                    assert(holds_curve(data@, base + 2 * jj, curves@[jj], zero));
                }
            }
        }
    }
    (data, curve_tex_height, starts)
}


// ---------------------------------------------------------------------------
// Band texture: one glyph
// ---------------------------------------------------------------------------

/// Column and row, in the curve texture, of curve texel `ct`.
pub open spec fn curve_loc(ct: int) -> (u32, u32) {
    ((ct % (TEX_WIDTH as int)) as u32, (ct / (TEX_WIDTH as int)) as u32)
}

/// The header texels of a glyph's bands: for band `i`, its curve count and the
/// offset of its curve list from the glyph's first band texel. The lists follow
/// the `header_count` headers, in band order.
pub open spec fn band_headers(lists: Seq<Seq<usize>>, header_count: int) -> Seq<(u32, u32)> {
    Seq::new(
        lists.len(),
        |i: int| (lists[i].len() as u32, (header_count + lists.take(i).flatten().len()) as u32),
    )
}

/// The curve-list texels of a glyph's bands: all lists one after the other, each
/// curve given by the location of its first curve texel.
pub open spec fn band_list_texels(lists: Seq<Seq<usize>>, curve_start: int) -> Seq<(u32, u32)> {
    lists.flatten().map_values(|c: usize| curve_loc(curve_start + 2 * c))
}

/// All band texels of a glyph, from its first band texel on.
pub open spec fn glyph_band_block(lists: Seq<Seq<usize>>, header_count: int, curve_start: int) -> Seq<(u32, u32)> {
    band_headers(lists, header_count) + band_list_texels(lists, curve_start)
}

pub proof fn lemma_flatten_take_step<A>(lists: Seq<Seq<A>>, i: int)
    requires
        0 <= i < lists.len(),
    ensures
        lists.take(i + 1).flatten() == lists.take(i).flatten() + lists[i],
{
    assert(lists.take(i + 1) =~= lists.take(i).push(lists[i]));
    lists.take(i).lemma_flatten_push(lists[i]);
}

/// The band texels of one glyph whose bands, in order, have curve lists `bands`
/// and whose curves start at curve texel `curve_start`.
pub fn glyph_band_words(bands: &Vec<BandEntry>, header_count: usize, curve_start: usize) -> (words: Vec<(u32, u32)>)
    requires
        header_count + entry_lists(bands@).flatten().len() <= usize::MAX,
        forall|i: int, k: int|
            0 <= i < bands@.len() && 0 <= k < bands@[i].curve_indices@.len() ==>
                curve_start + 2 * #[trigger] bands@[i].curve_indices@[k] + 1 <= usize::MAX,
    ensures
        words@ == glyph_band_block(entry_lists(bands@), header_count as int, curve_start as int),
{
    let ghost lists = entry_lists(bands@);
    let n = bands.len();
    let mut words: Vec<(u32, u32)> = Vec::new();
    let mut offset: usize = header_count;
    proof {
        assert(lists.take(0) =~= Seq::<Seq<usize>>::empty());
        assert(lists.take(0).flatten() =~= Seq::<usize>::empty());
    }
    for i in 0..n
        invariant
            n == bands@.len(),
            lists == entry_lists(bands@),
            header_count + lists.flatten().len() <= usize::MAX,
            offset == header_count + lists.take(i as int).flatten().len(),
            words@ == band_headers(lists, header_count as int).take(i as int),
    {
        proof {
            lemma_flatten_take_step(lists, i as int);
            lemma_flatten_prefix_len(lists, i + 1);
        }
        let len = bands[i].curve_indices.len();
        words.push((len as u32, offset as u32));
        offset = offset + len;
        proof {
            assert(words@ =~= band_headers(lists, header_count as int).take(i + 1));
        }
    }
    proof {
        assert(band_headers(lists, header_count as int).take(n as int) =~= band_headers(lists, header_count as int));
        assert(lists.take(0) =~= Seq::<Seq<usize>>::empty());
        assert(band_list_texels(lists.take(0), curve_start as int) =~= Seq::<(u32, u32)>::empty());
    }
    let ghost headers = words@;
    for i in 0..n
        invariant
            n == bands@.len(),
            lists == entry_lists(bands@),
            headers == band_headers(lists, header_count as int),
            forall|ii: int, k: int|
                0 <= ii < bands@.len() && 0 <= k < bands@[ii].curve_indices@.len() ==>
                    curve_start + 2 * #[trigger] bands@[ii].curve_indices@[k] + 1 <= usize::MAX,
            words@ == headers + band_list_texels(lists.take(i as int), curve_start as int),
    {
        let list = &bands[i].curve_indices;
        let ghost done = words@;
        for k in 0..list.len()
            invariant
                n == bands@.len(),
                i < n,
                *list == bands@[i as int].curve_indices,
                forall|ii: int, kk: int|
                    0 <= ii < bands@.len() && 0 <= kk < bands@[ii].curve_indices@.len() ==>
                        curve_start + 2 * #[trigger] bands@[ii].curve_indices@[kk] + 1 <= usize::MAX,
                words@ == done + list@.take(k as int).map_values(|c: usize| curve_loc(curve_start + 2 * c)),
        {
            let c = list[k];
            assert(curve_start + 2 * bands@[i as int].curve_indices@[k as int] + 1 <= usize::MAX);
            let ct = curve_start + c * 2;
            words.push(((ct % TEX_WIDTH) as u32, (ct / TEX_WIDTH) as u32));
            proof {
                assert(list@.take(k + 1).map_values(|c: usize| curve_loc(curve_start + 2 * c)) =~=
                    list@.take(k as int).map_values(|c: usize| curve_loc(curve_start + 2 * c)).push(curve_loc(ct as int)));
            }
        }
        proof {
            lemma_flatten_take_step(lists, i as int);
            assert(list@.take(list@.len() as int) =~= list@);
            assert(lists[i as int] == list@);
            assert(band_list_texels(lists.take(i + 1), curve_start as int) =~=
                band_list_texels(lists.take(i as int), curve_start as int)
                + list@.map_values(|c: usize| curve_loc(curve_start + 2 * c)));
        }
    }
    proof {
        assert(lists.take(n as int) =~= lists);
    }
    words
}

proof fn lemma_flatten_prefix_len<A>(lists: Seq<Seq<A>>, i: int)
    requires
        0 <= i <= lists.len(),
    ensures
        lists.take(i).flatten().len() <= lists.flatten().len(),
    decreases lists.len() - i,
{
    if i < lists.len() {
        lemma_flatten_take_step(lists, i);
        lemma_flatten_prefix_len(lists, i + 1);
    } else {
        assert(lists.take(i) =~= lists);
    }
}


/// The sort keys of a glyph's curves: for each curve, an order-preserving code
/// of its largest x and of its largest y coordinate.
#[derive(Debug)]
pub struct CurveSortKeys {
    pub x_max: Vec<u32>,
    pub y_max: Vec<u32>,
}

/// Each list sorted by decreasing key.
pub open spec fn sorted_lists(lists: Seq<Seq<usize>>, keys: Seq<u32>) -> Seq<Seq<usize>> {
    lists.map_values(|l: Seq<usize>| sort_by_key_desc(l, keys))
}

/// A glyph's band lists as they are packed: horizontal bands sorted by
/// decreasing largest x, then vertical bands sorted by decreasing largest y.
pub open spec fn packed_band_lists<C>(g: SlugGlyph<C>, keys: CurveSortKeys) -> Seq<Seq<usize>> {
    sorted_lists(entry_lists(g.bands.h_bands@), keys.x_max@) + sorted_lists(
        entry_lists(g.bands.v_bands@),
        keys.y_max@,
    )
}

/// Appends the bands of `bands`, each with its curve list sorted by decreasing key.
fn push_sorted_bands(out: &mut Vec<BandEntry>, bands: &Vec<BandEntry>, keys: &Vec<u32>)
    requires
        forall|i: int, k: int|
            0 <= i < bands@.len() && 0 <= k < bands@[i].curve_indices@.len() ==>
                #[trigger] bands@[i].curve_indices@[k] < keys@.len(),
    ensures
        entry_lists(final(out)@) == entry_lists(old(out)@) + sorted_lists(entry_lists(bands@), keys@),
{
    let ghost start = old(out)@;
    for i in 0..bands.len()
        invariant
            forall|ii: int, k: int|
                0 <= ii < bands@.len() && 0 <= k < bands@[ii].curve_indices@.len() ==>
                    #[trigger] bands@[ii].curve_indices@[k] < keys@.len(),
            entry_lists(out@) == entry_lists(start) + sorted_lists(entry_lists(bands@), keys@).take(i as int),
    {
        let list = &bands[i].curve_indices;
        assert forall|k: int| 0 <= k < list@.len() implies #[trigger] list@[k] < keys@.len() by {
            assert(list@[k] == bands@[i as int].curve_indices@[k]);
        }
        let sorted = sort_indices_by_key_desc(list, keys);
        let ghost prev = out@;
        out.push(BandEntry { curve_indices: sorted });
        proof {
            assert(out@ == prev.push(BandEntry { curve_indices: sorted }));
            assert(entry_lists(out@) =~= entry_lists(prev).push(sorted@));
            assert(sorted_lists(entry_lists(bands@), keys@).take(i + 1) =~=
                sorted_lists(entry_lists(bands@), keys@).take(i as int).push(sorted@));
            assert(entry_lists(out@) =~= entry_lists(start) + sorted_lists(entry_lists(bands@), keys@).take(i + 1));
        }
    }
    proof {
        assert(sorted_lists(entry_lists(bands@), keys@).take(bands@.len() as int) =~= sorted_lists(entry_lists(bands@), keys@));
    }
}

/// The bands of a glyph in packing order with their curve lists sorted.
pub fn packed_bands<C>(g: &SlugGlyph<C>, keys: &CurveSortKeys) -> (bands: Vec<BandEntry>)
    requires
        g.bands.indices_below(g.curves@.len() as int),
        keys.x_max@.len() == g.curves@.len(),
        keys.y_max@.len() == g.curves@.len(),
    ensures
        entry_lists(bands@) == packed_band_lists(*g, *keys),
{
    let ghost h = entry_lists(g.bands.h_bands@);
    let ghost v = entry_lists(g.bands.v_bands@);
    assert forall|i: int, k: int|
        0 <= i < g.bands.h_bands@.len() && 0 <= k < g.bands.h_bands@[i].curve_indices@.len() implies
            #[trigger] g.bands.h_bands@[i].curve_indices@[k] < keys.x_max@.len() by {
        assert(g.bands.all_lists()[i] == g.bands.h_bands@[i].curve_indices@);
    }
    assert forall|i: int, k: int|
        0 <= i < g.bands.v_bands@.len() && 0 <= k < g.bands.v_bands@[i].curve_indices@.len() implies
            #[trigger] g.bands.v_bands@[i].curve_indices@[k] < keys.y_max@.len() by {
        assert(g.bands.all_lists()[h.len() + i] == g.bands.v_bands@[i].curve_indices@);
    }
    let mut out: Vec<BandEntry> = Vec::new();
    push_sorted_bands(&mut out, &g.bands.h_bands, &keys.x_max);
    push_sorted_bands(&mut out, &g.bands.v_bands, &keys.y_max);
    proof {
        assert(entry_lists(Seq::<BandEntry>::empty()) =~= Seq::<Seq<usize>>::empty());
        assert(entry_lists(out@) =~= packed_band_lists(*g, *keys));
    }
    out
}

/// Sorting each list keeps the total length, and a bound on the elements.
pub proof fn lemma_sorted_lists_flatten(lists: Seq<Seq<usize>>, keys: Seq<u32>, bound: int)
    requires
        forall|i: int, k: int| 0 <= i < lists.len() && 0 <= k < lists[i].len() ==> #[trigger] lists[i][k] < bound,
    ensures
        sorted_lists(lists, keys).len() == lists.len(),
        sorted_lists(lists, keys).flatten().len() == lists.flatten().len(),
        forall|i: int, k: int|
            0 <= i < lists.len() && 0 <= k < sorted_lists(lists, keys)[i].len() ==>
                #[trigger] sorted_lists(lists, keys)[i][k] < bound,
    decreases lists.len(),
{
    let sl = sorted_lists(lists, keys);
    assert forall|i: int| 0 <= i < lists.len() implies (#[trigger] sl[i]).len() == lists[i].len()
        && forall|k: int| 0 <= k < lists[i].len() ==> #[trigger] sl[i][k] < bound by {
        assert forall|k: int| 0 <= k < lists[i].len() implies #[trigger] lists[i][k] < bound by {}
        lemma_sort_len_bound(lists[i], keys, bound);
    }
    if lists.len() > 0 {
        let rest = lists.drop_first();
        assert forall|i: int, k: int| 0 <= i < rest.len() && 0 <= k < rest[i].len() implies #[trigger] rest[i][k] < bound by {
            assert(rest[i] == lists[i + 1]);
        }
        lemma_sorted_lists_flatten(rest, keys, bound);
        assert(sl.drop_first() =~= sorted_lists(rest, keys));
    }
}

// ---------------------------------------------------------------------------
// Band texture: layout of all glyphs
// ---------------------------------------------------------------------------

/// Where a glyph whose header needs `header_count` texels starts when the band
/// cursor is at `pos`: at `pos`, unless the headers would run past the end of the
/// row, in which case at the start of the next row.
pub open spec fn align_band_start(pos: int, header_count: int) -> int {
    if pos % (TEX_WIDTH as int) + header_count > TEX_WIDTH {
        pos + (TEX_WIDTH - pos % (TEX_WIDTH as int))
    } else {
        pos
    }
}

/// The band texels a glyph takes: its headers and its curve lists.
pub open spec fn glyph_band_len(b: GlyphBands) -> int {
    b.header_count() + b.all_lists().flatten().len()
}

/// The band cursor after the first `n` glyphs. Glyphs without bands take no
/// space.
pub open spec fn band_cursor<C>(gs: Seq<SlugGlyph<C>>, n: int) -> int
    decreases n,
{
    if n <= 0 {
        0
    } else {
        let b = gs[n - 1].bands;
        if b.header_count() == 0 {
            band_cursor(gs, n - 1)
        } else {
            align_band_start(band_cursor(gs, n - 1), b.header_count()) + glyph_band_len(b)
        }
    }
}

/// The first band texel of glyph `n`.
pub open spec fn band_glyph_start<C>(gs: Seq<SlugGlyph<C>>, n: int) -> int {
    align_band_start(band_cursor(gs, n), gs[n].bands.header_count())
}

/// The band texels taken by all glyphs.
pub open spec fn band_texel_total<C>(gs: Seq<SlugGlyph<C>>) -> int {
    band_cursor(gs, gs.len() as int)
}

pub proof fn lemma_band_cursor_monotone<C>(gs: Seq<SlugGlyph<C>>, m: int, n: int)
    requires
        0 <= m <= n,
    ensures
        0 <= band_cursor(gs, m) <= band_cursor(gs, n),
    decreases n,
{
    if m < n {
        lemma_band_cursor_monotone(gs, m, n - 1);
        lemma_band_step(gs, n - 1);
    } else if n > 0 {
        lemma_band_cursor_monotone(gs, n - 1, n - 1);
        lemma_band_step(gs, n - 1);
    }
}

/// One glyph's step of the band cursor.
pub proof fn lemma_band_step<C>(gs: Seq<SlugGlyph<C>>, n: int)
    requires
        0 <= n,
        0 <= band_cursor(gs, n),
    ensures
        band_cursor(gs, n) <= band_glyph_start(gs, n),
        band_glyph_start(gs, n) <= band_cursor(gs, n) + TEX_WIDTH,
        gs[n].bands.header_count() > 0 ==> band_cursor(gs, n + 1) == band_glyph_start(gs, n) + glyph_band_len(gs[n].bands),
        gs[n].bands.header_count() == 0 ==> band_cursor(gs, n + 1) == band_cursor(gs, n),
        gs[n].bands.header_count() >= 0 ==> band_cursor(gs, n) <= band_cursor(gs, n + 1),
{
    let b = gs[n].bands;
    assert(b.all_lists().flatten().len() >= 0);
}

/// The number of band texels that all glyphs take (the first packing pass).
pub fn band_texels_needed<C>(glyphs: &[SlugGlyph<C>]) -> (total: usize)
    requires
        band_texel_total(glyphs@) <= usize::MAX,
        forall|n: int| 0 <= n < glyphs@.len() ==> (#[trigger] glyphs@[n]).bands.wf(),
    ensures
        total == band_texel_total(glyphs@),
{
    let ghost gs = glyphs@;
    let mut total: usize = 0;
    for n in 0..glyphs.len()
        invariant
            gs == glyphs@,
            band_texel_total(gs) <= usize::MAX,
            forall|m: int| 0 <= m < gs.len() ==> (#[trigger] gs[m]).bands.wf(),
            total == band_cursor(gs, n as int),
    {
        let bands = &glyphs[n].bands;
        proof {
            lemma_band_cursor_monotone(gs, n + 1, gs.len() as int);
            lemma_band_cursor_monotone(gs, n as int, n + 1);
            lemma_band_step(gs, n as int);
            assert(gs[n as int].bands.wf());
        }
        let ghost b = gs[n as int].bands;
        let ghost all = b.all_lists();
        let ghost h_len = bands.h_bands@.len() as int;
        proof {
            if b.header_count() > 0 {
                assert(all.flatten().len() >= 0);
            }
        }
        let header_count = bands.h_band_count + bands.v_band_count;
        if header_count > 0 {
            let cur_x = total % TEX_WIDTH;
            if cur_x + header_count > TEX_WIDTH {
                total = total + (TEX_WIDTH - cur_x);
            }
            let ghost start = total as int;
            assert(start == band_glyph_start(gs, n as int));
            total = total + header_count;
            proof {
                assert(all.take(0) =~= Seq::<Seq<usize>>::empty());
                assert(all.take(0).flatten() =~= Seq::<usize>::empty());
            }
            for i in 0..bands.h_bands.len()
                invariant
                    *bands == b,
                    b.wf(),
                    all == b.all_lists(),
                    h_len == b.h_bands@.len(),
                    start + glyph_band_len(b) <= usize::MAX,
                    total == start + b.header_count() + all.take(i as int).flatten().len(),
            {
                proof {
                    lemma_flatten_take_step(all, i as int);
                    lemma_flatten_prefix_len(all, i + 1);
                }
                total = total + bands.h_bands[i].curve_indices.len();
            }
            for i in 0..bands.v_bands.len()
                invariant
                    *bands == b,
                    b.wf(),
                    all == b.all_lists(),
                    h_len == b.h_bands@.len(),
                    start + glyph_band_len(b) <= usize::MAX,
                    total == start + b.header_count() + all.take(h_len + i).flatten().len(),
            {
                proof {
                    lemma_flatten_take_step(all, h_len + i);
                    lemma_flatten_prefix_len(all, h_len + i + 1);
                }
                total = total + bands.v_bands[i].curve_indices.len();
            }
            proof {
                assert(all.take(h_len + b.v_bands@.len()) =~= all);
            }
        }
    }
    total
}


/// The band texels of glyph `n`, from its first band texel on.
pub open spec fn glyph_band_texels<C>(gs: Seq<SlugGlyph<C>>, keys: Seq<CurveSortKeys>, n: int) -> Seq<(u32, u32)> {
    glyph_band_block(
        packed_band_lists(gs[n], keys[n]),
        gs[n].bands.header_count(),
        curve_texels_before(gs, n),
    )
}

/// The first two channels of texel `t` are zero.
pub open spec fn texel_is_blank(d: Seq<u32>, t: int) -> bool {
    d[4 * t] == 0 && d[4 * t + 1] == 0
}

/// Texel `t` lies in the band block of one of the first `n` glyphs.
pub open spec fn in_band_block<C>(gs: Seq<SlugGlyph<C>>, n: int, t: int) -> bool {
    exists|m: int|
        0 <= m < n && gs[m].bands.header_count() > 0 && band_glyph_start(gs, m) <= t
            < band_glyph_start(gs, m) + glyph_band_len(#[trigger] gs[m].bands)
}

/// The band location that the texture records for glyph `n`.
pub open spec fn band_info_of<C>(gs: Seq<SlugGlyph<C>>, n: int) -> GlyphBandInfo {
    if gs[n].bands.header_count() == 0 {
        GlyphBandInfo { glyph_loc_x: 0, glyph_loc_y: 0 }
    } else {
        GlyphBandInfo {
            glyph_loc_x: (band_glyph_start(gs, n) % (TEX_WIDTH as int)) as u16,
            glyph_loc_y: (band_glyph_start(gs, n) / (TEX_WIDTH as int)) as u16,
        }
    }
}

/// What the packing of a run of glyphs asks of its input: consistent band
/// counts, curve indices that name curves of the glyph, a sort key for every
/// curve, and textures whose size fits the machine.
pub open spec fn packable<C>(gs: Seq<SlugGlyph<C>>, keys: Seq<CurveSortKeys>) -> bool {
    &&& keys.len() == gs.len()
    &&& forall|n: int| 0 <= n < gs.len() ==> (#[trigger] gs[n]).bands.wf()
    &&& forall|n: int| 0 <= n < gs.len() ==> (#[trigger] gs[n]).bands.indices_below(gs[n].curves@.len() as int)
    &&& forall|n: int| 0 <= n < gs.len() ==> (#[trigger] keys[n]).x_max@.len() == gs[n].curves@.len()
    &&& forall|n: int| 0 <= n < gs.len() ==> (#[trigger] keys[n]).y_max@.len() == gs[n].curves@.len()
    &&& 4 * (curve_texel_total(gs) + TEX_WIDTH) <= usize::MAX
    &&& 4 * (band_texel_total(gs) + TEX_WIDTH) <= usize::MAX
}

/// Writes the texel pairs `words` into the first two channels of the texels
/// from `start` on.
fn write_band_words(data: &mut Vec<u32>, start: usize, words: &Vec<(u32, u32)>)
    requires
        4 * (start + words@.len()) <= old(data)@.len(),
        old(data)@.len() <= usize::MAX,
    ensures
        final(data)@.len() == old(data)@.len(),
        forall|q: int| 0 <= q < words@.len() ==> final(data)@[4 * (start + q)] == (#[trigger] words@[q]).0
            && final(data)@[4 * (start + q) + 1] == words@[q].1,
        forall|j: int| 0 <= j < old(data)@.len() && (j < 4 * start || j >= 4 * (start + words@.len()) || j % 4 >= 2)
            ==> #[trigger] final(data)@[j] == old(data)@[j],
{
    let ghost before = data@;
    for q in 0..words.len()
        invariant
            data@.len() == before.len(),
            before.len() <= usize::MAX,
            4 * (start + words@.len()) <= before.len(),
            forall|qq: int| 0 <= qq < q ==> data@[4 * (start + qq)] == (#[trigger] words@[qq]).0
                && data@[4 * (start + qq) + 1] == words@[qq].1,
            forall|j: int| 0 <= j < before.len() && (j < 4 * start || j >= 4 * (start + q) || j % 4 >= 2)
                ==> #[trigger] data@[j] == before[j],
    {
        let off = texel_offset(start + q);
        let (a, b) = words[q];
        data.set(off, a);
        data.set(off + 1, b);
    }
}

/// Packs the bands of all glyphs into the band texture (the second packing
/// pass): returns the texture data, its height and each glyph's band location.
pub fn pack_band_texture<C>(glyphs: &[SlugGlyph<C>], keys: &[CurveSortKeys], curve_starts: &Vec<usize>) -> (packed: (Vec<u32>, usize, Vec<GlyphBandInfo>))
    requires
        packable(glyphs@, keys@),
        curve_starts@.len() == glyphs@.len(),
        forall|n: int| 0 <= n < glyphs@.len() ==> #[trigger] curve_starts@[n] == curve_texels_before(glyphs@, n),
    ensures
        packed.1 == spec_tex_height(band_texel_total(glyphs@) as nat),
        packed.0@.len() == TEX_WIDTH * packed.1 * 4,
        packed.2@.len() == glyphs@.len(),
        forall|n: int| 0 <= n < glyphs@.len() ==> #[trigger] packed.2@[n] == band_info_of(glyphs@, n),
        forall|n: int, q: int|
            0 <= n < glyphs@.len() && glyphs@[n].bands.header_count() > 0 && 0 <= q < glyph_band_texels(glyphs@, keys@, n).len()
                ==> packed.0@[4 * (band_glyph_start(glyphs@, n) + q)] == (#[trigger] glyph_band_texels(glyphs@, keys@, n)[q]).0
                    && packed.0@[4 * (band_glyph_start(glyphs@, n) + q) + 1] == glyph_band_texels(glyphs@, keys@, n)[q].1,
        forall|t: int| 0 <= t < TEX_WIDTH * packed.1 && !in_band_block(glyphs@, glyphs@.len() as int, t)
            ==> #[trigger] texel_is_blank(packed.0@, t),
        forall|j: int| 0 <= j < packed.0@.len() && j % 4 >= 2 ==> #[trigger] packed.0@[j] == 0,
{
    let ghost gs = glyphs@;
    let ghost ks = keys@;
    let total = band_texels_needed(glyphs);
    let band_tex_height = tex_height(total);
    proof {
        assert(TEX_WIDTH * band_tex_height <= total + TEX_WIDTH) by (nonlinear_arith)
            requires
                band_tex_height == spec_tex_height(total as nat),
                total >= 0,
                TEX_WIDTH == 4096;
        assert(TEX_WIDTH * band_tex_height >= total) by (nonlinear_arith)
            requires
                band_tex_height == spec_tex_height(total as nat),
                total >= 0,
                TEX_WIDTH == 4096;
    }
    let ghost texels = TEX_WIDTH * band_tex_height;
    let mut data = filled(0u32, TEX_WIDTH * band_tex_height * 4);
    let mut infos: Vec<GlyphBandInfo> = Vec::with_capacity(glyphs.len());
    let mut idx: usize = 0;
    for n in 0..glyphs.len()
        invariant
            gs == glyphs@,
            ks == keys@,
            packable(gs, ks),
            curve_starts@.len() == gs.len(),
            forall|m: int| 0 <= m < gs.len() ==> #[trigger] curve_starts@[m] == curve_texels_before(gs, m),
            total == band_texel_total(gs),
            texels == TEX_WIDTH * band_tex_height,
            total <= texels,
            texels <= total + TEX_WIDTH,
            data@.len() == 4 * texels,
            idx == band_cursor(gs, n as int),
            infos@.len() == n,
            forall|m: int| 0 <= m < n ==> #[trigger] infos@[m] == band_info_of(gs, m),
            forall|m: int, q: int|
                0 <= m < n && gs[m].bands.header_count() > 0 && 0 <= q < glyph_band_texels(gs, ks, m).len()
                    ==> data@[4 * (band_glyph_start(gs, m) + q)] == (#[trigger] glyph_band_texels(gs, ks, m)[q]).0
                        && data@[4 * (band_glyph_start(gs, m) + q) + 1] == glyph_band_texels(gs, ks, m)[q].1,
            forall|t: int| idx <= t < texels ==> #[trigger] texel_is_blank(data@, t),
            forall|t: int| 0 <= t < idx && !in_band_block(gs, n as int, t) ==> #[trigger] texel_is_blank(data@, t),
            forall|j: int| 0 <= j < data@.len() && j % 4 >= 2 ==> #[trigger] data@[j] == 0,
    {
        let glyph = &glyphs[n];
        let ghost b = gs[n as int].bands;
        proof {
            lemma_band_cursor_monotone(gs, n + 1, gs.len() as int);
            lemma_band_cursor_monotone(gs, n as int, n + 1);
            lemma_band_step(gs, n as int);
            assert(b.wf());
            if b.header_count() > 0 {
                assert(b.all_lists().flatten().len() >= 0);
            }
        }
        let header_count = glyph.bands.h_band_count + glyph.bands.v_band_count;
        if header_count == 0 {
            infos.push(GlyphBandInfo { glyph_loc_x: 0, glyph_loc_y: 0 });
            proof {
                assert forall|t: int| 0 <= t < idx && !in_band_block(gs, n + 1, t) implies #[trigger] texel_is_blank(data@, t) by {
                    if in_band_block(gs, n as int, t) {
                        let m = choose|m: int|
                            0 <= m < n && gs[m].bands.header_count() > 0 && band_glyph_start(gs, m) <= t
                                < band_glyph_start(gs, m) + glyph_band_len(#[trigger] gs[m].bands);
                        assert(0 <= m < n + 1);
                    }
                }
            }
        } else {
            let cur_x = idx % TEX_WIDTH;
            if cur_x + header_count > TEX_WIDTH {
                idx = idx + (TEX_WIDTH - cur_x);
            }
            let glyph_start = idx;
            assert(glyph_start == band_glyph_start(gs, n as int));
            let glyph_loc_x = (glyph_start % TEX_WIDTH) as u16;
            let glyph_loc_y = (glyph_start / TEX_WIDTH) as u16;
            infos.push(GlyphBandInfo { glyph_loc_x, glyph_loc_y });

            let ghost cs = curve_texels_before(gs, n as int);
            let ghost nc = gs[n as int].curves@.len() as int;
            proof {
                lemma_curve_texels_monotone(gs, n + 1, gs.len() as int);
                lemma_curve_texels_monotone(gs, n as int, n + 1);
            }
            let sorted = packed_bands(glyph, &keys[n]);
            let ghost lists = entry_lists(sorted@);
            proof {
                let h = entry_lists(b.h_bands@);
                let v = entry_lists(b.v_bands@);
                assert(forall|i: int, k: int| 0 <= i < h.len() && 0 <= k < h[i].len() ==> #[trigger] h[i][k] < nc) by {
                    assert forall|i: int, k: int| 0 <= i < h.len() && 0 <= k < h[i].len() implies #[trigger] h[i][k] < nc by {
                        assert(b.all_lists()[i] == h[i]);
                    }
                }
                assert(forall|i: int, k: int| 0 <= i < v.len() && 0 <= k < v[i].len() ==> #[trigger] v[i][k] < nc) by {
                    assert forall|i: int, k: int| 0 <= i < v.len() && 0 <= k < v[i].len() implies #[trigger] v[i][k] < nc by {
                        assert(b.all_lists()[h.len() + i] == v[i]);
                    }
                }
                lemma_sorted_lists_flatten(h, ks[n as int].x_max@, nc);
                lemma_sorted_lists_flatten(v, ks[n as int].y_max@, nc);
                lemma_flatten_concat(sorted_lists(h, ks[n as int].x_max@), sorted_lists(v, ks[n as int].y_max@));
                lemma_flatten_concat(h, v);
                assert(lists.flatten().len() == b.all_lists().flatten().len());
                assert(lists.len() == header_count);
                assert forall|i: int, k: int|
                    0 <= i < sorted@.len() && 0 <= k < sorted@[i].curve_indices@.len() implies
                        cs + 2 * #[trigger] sorted@[i].curve_indices@[k] + 1 <= usize::MAX by {
                    assert(lists[i] == sorted@[i].curve_indices@);
                    if i < h.len() {
                        assert(lists[i][k] < nc);
                    } else {
                        assert(lists[i] == sorted_lists(v, ks[n as int].y_max@)[i - h.len()]);
                        assert(lists[i][k] < nc);
                    }
                }
            }
            let words = glyph_band_words(&sorted, header_count, curve_starts[n]);
            assert(words@ == glyph_band_texels(gs, ks, n as int));
            assert(words@.len() == glyph_band_len(b));
            let ghost before = data@;
            write_band_words(&mut data, glyph_start, &words);
            idx = glyph_start + words.len();
            proof {
                assert forall|m: int, q: int|
                    0 <= m < n + 1 && gs[m].bands.header_count() > 0 && 0 <= q < glyph_band_texels(gs, ks, m).len()
                        implies data@[4 * (band_glyph_start(gs, m) + q)] == (#[trigger] glyph_band_texels(gs, ks, m)[q]).0
                            && data@[4 * (band_glyph_start(gs, m) + q) + 1] == glyph_band_texels(gs, ks, m)[q].1 by {
                    if m < n {
                        lemma_band_cursor_monotone(gs, m + 1, n as int);
                        lemma_band_cursor_monotone(gs, m, m + 1);
                        lemma_band_step(gs, m);
                        assert(glyph_band_texels(gs, ks, m).len() <= glyph_band_len(gs[m].bands)) by {
                            lemma_block_len(gs, ks, m);
                        }
                        let p = 4 * (band_glyph_start(gs, m) + q);
                        assert(data@[p] == before[p]);
                        assert(data@[p + 1] == before[p + 1]);
                    } else {
                        assert(words@[q] == glyph_band_texels(gs, ks, m)[q]);
                    }
                }
                assert forall|t: int| idx <= t < texels implies #[trigger] texel_is_blank(data@, t) by {
                    assert(texel_is_blank(before, t));
                    assert(data@[4 * t] == before[4 * t]);
                    assert(data@[4 * t + 1] == before[4 * t + 1]);
                }
                assert forall|t: int| 0 <= t < idx && !in_band_block(gs, n + 1, t) implies #[trigger] texel_is_blank(data@, t) by {
                    if glyph_start <= t {
                        assert(0 <= n < n + 1 && gs[n as int].bands.header_count() > 0 && band_glyph_start(gs, n as int) <= t
                            < band_glyph_start(gs, n as int) + glyph_band_len(gs[n as int].bands));
                        assert(false);
                    } else {
                        assert(data@[4 * t] == before[4 * t]);
                        assert(data@[4 * t + 1] == before[4 * t + 1]);
                        if !in_band_block(gs, n as int, t) {
                            assert(texel_is_blank(before, t));
                        }
                        if in_band_block(gs, n as int, t) {
                            let m = choose|m: int|
                                0 <= m < n && gs[m].bands.header_count() > 0 && band_glyph_start(gs, m) <= t
                                    < band_glyph_start(gs, m) + glyph_band_len(#[trigger] gs[m].bands);
                            assert(0 <= m < n + 1);
                        }
                    }
                }
                assert forall|j: int| 0 <= j < data@.len() && j % 4 >= 2 implies #[trigger] data@[j] == 0 by {
                    assert(data@[j] == before[j]);
                }
            }
        }
    }
    proof {
        assert forall|t: int| 0 <= t < texels && !in_band_block(gs, gs.len() as int, t)
            implies #[trigger] texel_is_blank(data@, t) by {}
    }
    (data, band_tex_height, infos)
}

/// The packed block of glyph `n` is as long as the space the layout gives it.
pub proof fn lemma_block_len<C>(gs: Seq<SlugGlyph<C>>, ks: Seq<CurveSortKeys>, n: int)
    requires
        packable(gs, ks),
        0 <= n < gs.len(),
    ensures
        glyph_band_texels(gs, ks, n).len() == glyph_band_len(gs[n].bands),
{
    let b = gs[n].bands;
    let nc = gs[n].curves@.len() as int;
    let h = entry_lists(b.h_bands@);
    let v = entry_lists(b.v_bands@);
    assert(b.wf());
    assert(b.indices_below(nc));
    assert forall|i: int, k: int| 0 <= i < h.len() && 0 <= k < h[i].len() implies #[trigger] h[i][k] < nc by {
        assert(b.all_lists()[i] == h[i]);
    }
    assert forall|i: int, k: int| 0 <= i < v.len() && 0 <= k < v[i].len() implies #[trigger] v[i][k] < nc by {
        assert(b.all_lists()[h.len() + i] == v[i]);
    }
    lemma_sorted_lists_flatten(h, ks[n].x_max@, nc);
    lemma_sorted_lists_flatten(v, ks[n].y_max@, nc);
    lemma_flatten_concat(sorted_lists(h, ks[n].x_max@), sorted_lists(v, ks[n].y_max@));
    lemma_flatten_concat(h, v);
}

/// Flattening distributes over concatenation.
pub proof fn lemma_flatten_concat<A>(a: Seq<Seq<A>>, b: Seq<Seq<A>>)
    ensures
        (a + b).flatten() == a.flatten() + b.flatten(),
    decreases a.len(),
{
    if a.len() == 0 {
        assert(a + b =~= b);
        assert(a.flatten() =~= Seq::<A>::empty());
        assert(a.flatten() + b.flatten() =~= b.flatten());
    } else {
        lemma_flatten_concat(a.drop_first(), b);
        assert((a + b).drop_first() =~= a.drop_first() + b);
        assert((a + b).first() == a.first());
        assert(a.first() + (a.drop_first() + b).flatten() =~= a.first() + (a.drop_first().flatten() + b.flatten()));
        assert(a.first() + (a.drop_first().flatten() + b.flatten()) =~= (a.first() + a.drop_first().flatten()) + b.flatten());
    }
}


/// Packs a run of glyphs into the curve and band textures.
///
/// Curve texture: each curve takes two texels, start and control point in the
/// first, end point in the second; glyphs follow each other in order, and the
/// rest of the texture is `zero`.
///
/// Band texture: each glyph with bands starts at the band cursor, or at the next
/// row when its headers would not fit in the current one; it holds a header per
/// band (curve count, offset of the band's list) followed by the band lists,
/// horizontal bands first, each list sorted by decreasing largest coordinate
/// across the band and naming curves by the location of their first curve
/// texel. Every other value is zero.
pub fn pack_glyph_data<C: Copy>(glyphs: &[SlugGlyph<C>], keys: &[CurveSortKeys], zero: C) -> (packed: PackedGlyphData<C>)
    requires
        packable(glyphs@, keys@),
    ensures
        packed.curve_tex_height == spec_tex_height(curve_texel_total(glyphs@) as nat),
        packed.curve_tex_data@.len() == TEX_WIDTH * packed.curve_tex_height * 4,
        packed.glyph_curve_starts@.len() == glyphs@.len(),
        forall|n: int| 0 <= n < glyphs@.len() ==> #[trigger] packed.glyph_curve_starts@[n] == curve_texels_before(glyphs@, n),
        forall|n: int, j: int|
            0 <= n < glyphs@.len() && 0 <= j < glyphs@[n].curves@.len() ==> holds_curve(
                packed.curve_tex_data@,
                curve_texels_before(glyphs@, n) + 2 * j,
                #[trigger] glyphs@[n].curves@[j],
                zero,
            ),
        forall|i: int| 4 * curve_texel_total(glyphs@) <= i < packed.curve_tex_data@.len() ==> #[trigger] packed.curve_tex_data@[i] == zero,
        forall|n: int, j: int|
            0 <= n < glyphs@.len() && 0 <= j < glyphs@[n].curves@.len() ==> ({
                let c = #[trigger] glyphs@[n].curves@[j];
                let o = 4 * (curve_texels_before(glyphs@, n) + 2 * j);
                packed.curve_tex_data@.subrange(o, o + 8) == seq![c.p0x, c.p0y, c.p1x, c.p1y, c.p2x, c.p2y, zero, zero]
            }),
        packed.band_tex_height == spec_tex_height(band_texel_total(glyphs@) as nat),
        packed.band_tex_data@.len() == TEX_WIDTH * packed.band_tex_height * 4,
        packed.glyph_band_info@.len() == glyphs@.len(),
        forall|n: int| 0 <= n < glyphs@.len() ==> #[trigger] packed.glyph_band_info@[n] == band_info_of(glyphs@, n),
        forall|n: int, q: int|
            0 <= n < glyphs@.len() && glyphs@[n].bands.header_count() > 0 && 0 <= q < glyph_band_texels(glyphs@, keys@, n).len()
                ==> packed.band_tex_data@[4 * (band_glyph_start(glyphs@, n) + q)] == (#[trigger] glyph_band_texels(glyphs@, keys@, n)[q]).0
                    && packed.band_tex_data@[4 * (band_glyph_start(glyphs@, n) + q) + 1] == glyph_band_texels(glyphs@, keys@, n)[q].1,
        forall|t: int| 0 <= t < TEX_WIDTH * packed.band_tex_height && !in_band_block(glyphs@, glyphs@.len() as int, t)
            ==> #[trigger] texel_is_blank(packed.band_tex_data@, t),
        forall|j: int| 0 <= j < packed.band_tex_data@.len() && j % 4 >= 2 ==> #[trigger] packed.band_tex_data@[j] == 0,
{
    let (curve_tex_data, curve_tex_height, glyph_curve_starts) = pack_curve_texture(glyphs, zero);
    let (band_tex_data, band_tex_height, glyph_band_info) = pack_band_texture(glyphs, keys, &glyph_curve_starts);
    proof {
        let gs = glyphs@;
        assert forall|n: int, j: int|
            0 <= n < gs.len() && 0 <= j < gs[n].curves@.len() implies ({
                let c = #[trigger] gs[n].curves@[j];
                let o = 4 * (curve_texels_before(gs, n) + 2 * j);
                curve_tex_data@.subrange(o, o + 8) == seq![c.p0x, c.p0y, c.p1x, c.p1y, c.p2x, c.p2y, zero, zero]
            }) by {
            let c = gs[n].curves@[j];
            let o = 4 * (curve_texels_before(gs, n) + 2 * j);
            lemma_curve_texels_monotone(gs, n, n + 1);
            lemma_curve_texels_monotone(gs, n + 1, gs.len() as int);
            assert(holds_curve(curve_tex_data@, curve_texels_before(gs, n) + 2 * j, c, zero));
            assert(curve_tex_data@.subrange(o, o + 8) =~= seq![c.p0x, c.p0y, c.p1x, c.p1y, c.p2x, c.p2y, zero, zero]);
        }
    }
    PackedGlyphData {
        curve_tex_data,
        band_tex_data,
        curve_tex_height,
        band_tex_height,
        glyph_band_info,
        glyph_curve_starts,
    }
}


// ---------------------------------------------------------------------------
// Laws of the texture layout
// ---------------------------------------------------------------------------

/// A glyph with at most `TEX_WIDTH` bands has all its headers in one texture
/// row, and moving to the next row skips less than a row.
pub proof fn lemma_headers_in_one_row(pos: int, header_count: int)
    requires
        0 <= pos,
        0 < header_count <= TEX_WIDTH,
    ensures
        align_band_start(pos, header_count) % (TEX_WIDTH as int) + header_count <= TEX_WIDTH,
        pos <= align_band_start(pos, header_count) < pos + TEX_WIDTH,
        pos % (TEX_WIDTH as int) + header_count <= TEX_WIDTH ==> align_band_start(pos, header_count) == pos,
        pos % (TEX_WIDTH as int) + header_count > TEX_WIDTH ==> align_band_start(pos, header_count) % (TEX_WIDTH as int) == 0,
{
}

/// Each glyph's curves take the two texels per curve that follow the previous
/// glyph's: the first glyph starts at texel 0.
pub proof fn lemma_curve_starts<C>(gs: Seq<SlugGlyph<C>>, n: int)
    requires
        0 <= n < gs.len(),
    ensures
        curve_texels_before(gs, 0) == 0,
        curve_texels_before(gs, n + 1) == curve_texels_before(gs, n) + 2 * gs[n].curves@.len(),
        curve_texel_total(gs) == curve_texels_before(gs, gs.len() as int),
{
}

/// The glyph after `n` starts right at the band cursor when its headers fit in
/// the rest of the row, else at the start of the next row; glyphs without bands
/// take no band texels.
pub proof fn lemma_band_cursor_step<C>(gs: Seq<SlugGlyph<C>>, n: int)
    requires
        0 <= n < gs.len(),
        gs[n].bands.header_count() >= 0,
    ensures
        band_cursor(gs, 0) == 0,
        gs[n].bands.header_count() == 0 ==> band_cursor(gs, n + 1) == band_cursor(gs, n),
        gs[n].bands.header_count() > 0 ==> band_cursor(gs, n + 1) == band_glyph_start(gs, n) + gs[n].bands.header_count()
            + gs[n].bands.all_lists().flatten().len(),
        band_cursor(gs, n) % (TEX_WIDTH as int) + gs[n].bands.header_count() <= TEX_WIDTH ==> band_glyph_start(gs, n)
            == band_cursor(gs, n),
        band_cursor(gs, n) % (TEX_WIDTH as int) + gs[n].bands.header_count() > TEX_WIDTH ==> band_glyph_start(gs, n)
            == band_cursor(gs, n) + TEX_WIDTH - band_cursor(gs, n) % (TEX_WIDTH as int),
{
    lemma_band_cursor_monotone(gs, n, n);
}

/// The column and row of a curve texel give the texel back.
pub proof fn lemma_curve_loc_decodes(ct: int)
    requires
        0 <= ct,
        ct / (TEX_WIDTH as int) <= u32::MAX,
    ensures
        curve_loc(ct).1 * TEX_WIDTH + curve_loc(ct).0 == ct,
{
}

/// A curve location is a real texel of the curve texture: its column is below
/// `TEX_WIDTH`, and column and row are the remainder and quotient of the curve
/// texel by the texture width.
pub proof fn lemma_curve_loc_in_texture(ct: int)
    requires
        0 <= ct,
        ct / (TEX_WIDTH as int) <= u32::MAX,
    ensures
        curve_loc(ct).0 < TEX_WIDTH,
        curve_loc(ct).0 == ct % (TEX_WIDTH as int),
        curve_loc(ct).1 == ct / (TEX_WIDTH as int),
        curve_loc(ct).1 * TEX_WIDTH + curve_loc(ct).0 == ct,
{
}

/// The band location recorded for a glyph gives its first band texel back.
pub proof fn lemma_band_info_decodes<C>(gs: Seq<SlugGlyph<C>>, n: int)
    requires
        0 <= n < gs.len(),
        gs[n].bands.header_count() > 0,
        band_glyph_start(gs, n) / (TEX_WIDTH as int) < 65536,
    ensures
        band_info_of(gs, n).glyph_loc_y * TEX_WIDTH + band_info_of(gs, n).glyph_loc_x == band_glyph_start(gs, n),
{
    lemma_band_cursor_monotone(gs, n, n);
    lemma_band_step(gs, n);
}

/// Header `i` of a glyph's band block holds band `i`'s curve count and the
/// offset of its list, and the texels at that offset are band `i`'s curves, in
/// order.
pub proof fn lemma_header_points_to_its_band(lists: Seq<Seq<usize>>, curve_start: int, i: int)
    requires
        0 <= i < lists.len(),
    ensures
        ({
            let block = glyph_band_block(lists, lists.len() as int, curve_start);
            let off = lists.len() + lists.take(i).flatten().len();
            &&& block[i] == (lists[i].len() as u32, off as u32)
            &&& off + lists[i].len() <= block.len()
            &&& forall|k: int| 0 <= k < lists[i].len() ==> #[trigger] block[off + k] == curve_loc(curve_start + 2 * lists[i][k])
        }),
{
    let hc = lists.len() as int;
    let block = glyph_band_block(lists, hc, curve_start);
    let off = hc + lists.take(i).flatten().len();
    let before = lists.take(i).flatten();
    lemma_flatten_take_step(lists, i);
    lemma_flatten_prefix_len(lists, i + 1);
    let rest = lists.skip(i + 1);
    assert(lists =~= lists.take(i + 1) + rest);
    lemma_flatten_concat(lists.take(i + 1), rest);
    assert(lists.flatten() == before + lists[i] + rest.flatten());
    assert forall|k: int| 0 <= k < lists[i].len() implies #[trigger] block[off + k] == curve_loc(curve_start + 2 * lists[i][k]) by {
        assert(lists.flatten()[before.len() + k] == lists[i][k]);
    }
}

/// The bands of distinct glyphs occupy disjoint runs of texels, in glyph order,
/// and all of them lie before the texture's texel total.
pub proof fn lemma_band_blocks_disjoint<C>(gs: Seq<SlugGlyph<C>>, m: int, n: int)
    requires
        0 <= m < n < gs.len(),
        gs[m].bands.header_count() > 0,
        gs[n].bands.header_count() >= 0,
    ensures
        band_glyph_start(gs, m) + glyph_band_len(gs[m].bands) <= band_glyph_start(gs, n),
        band_glyph_start(gs, n) + (if gs[n].bands.header_count() > 0 { glyph_band_len(gs[n].bands) } else { 0 })
            <= band_texel_total(gs),
{
    lemma_band_cursor_monotone(gs, m, m);
    lemma_band_step(gs, m);
    lemma_band_cursor_monotone(gs, m + 1, n);
    lemma_band_cursor_monotone(gs, n, n);
    lemma_band_step(gs, n);
    lemma_band_cursor_monotone(gs, n + 1, gs.len() as int);
}

/// Every curve entry in the band texture names, through its column and row, the
/// curve texel at which the curve texture holds that very curve of the glyph.
pub proof fn lemma_band_entry_names_its_curve<C>(gs: Seq<SlugGlyph<C>>, ks: Seq<CurveSortKeys>, n: int, i: int, k: int)
    requires
        packable(gs, ks),
        curve_texel_total(gs) / (TEX_WIDTH as int) <= u32::MAX,
        0 <= n < gs.len(),
        0 <= i < packed_band_lists(gs[n], ks[n]).len(),
        0 <= k < packed_band_lists(gs[n], ks[n])[i].len(),
    ensures
        ({
            let lists = packed_band_lists(gs[n], ks[n]);
            let c = lists[i][k];
            let off = gs[n].bands.header_count() + lists.take(i).flatten().len();
            let ct = curve_texels_before(gs, n) + 2 * c;
            let loc = glyph_band_texels(gs, ks, n)[off + k];
            &&& 0 <= c < gs[n].curves@.len()
            &&& loc == curve_loc(ct)
            &&& loc.1 * TEX_WIDTH + loc.0 == ct
            &&& curve_texels_before(gs, n) <= ct && ct + 2 <= curve_texels_before(gs, n + 1)
        }),
{
    let g = gs[n];
    let b = g.bands;
    let lists = packed_band_lists(g, ks[n]);
    let nc = g.curves@.len() as int;
    let h = entry_lists(b.h_bands@);
    let v = entry_lists(b.v_bands@);
    assert(b.wf());
    assert(b.indices_below(nc));
    assert forall|ii: int, kk: int| 0 <= ii < h.len() && 0 <= kk < h[ii].len() implies #[trigger] h[ii][kk] < nc by {
        assert(b.all_lists()[ii] == h[ii]);
    }
    assert forall|ii: int, kk: int| 0 <= ii < v.len() && 0 <= kk < v[ii].len() implies #[trigger] v[ii][kk] < nc by {
        assert(b.all_lists()[h.len() + ii] == v[ii]);
    }
    lemma_sorted_lists_flatten(h, ks[n].x_max@, nc);
    lemma_sorted_lists_flatten(v, ks[n].y_max@, nc);
    if i < h.len() {
        assert(lists[i] == sorted_lists(h, ks[n].x_max@)[i]);
    } else {
        assert(lists[i] == sorted_lists(v, ks[n].y_max@)[i - h.len()]);
    }
    let c = lists[i][k];
    assert(0 <= c < nc);
    assert(lists.len() == b.header_count());
    lemma_header_points_to_its_band(lists, curve_texels_before(gs, n), i);
    lemma_curve_texels_monotone(gs, n, n + 1);
    lemma_curve_texels_monotone(gs, n + 1, gs.len() as int);
    let ct = curve_texels_before(gs, n) + 2 * c;
    assert(ct <= curve_texel_total(gs));
    assert(ct / (TEX_WIDTH as int) <= curve_texel_total(gs) / (TEX_WIDTH as int));
    lemma_curve_loc_decodes(ct);
}


/// The packed band lists of a glyph: each horizontal band's list is that band's
/// curves ordered by decreasing largest x, each vertical band's list that band's
/// curves ordered by decreasing largest y, and curves with equal keys keep their
/// order in the band.
pub proof fn lemma_packed_band_order<C>(g: SlugGlyph<C>, keys: CurveSortKeys)
    ensures
        packed_band_lists(g, keys).len() == g.bands.h_bands@.len() + g.bands.v_bands@.len(),
        forall|i: int| 0 <= i < g.bands.h_bands@.len() ==> {
            let l = #[trigger] packed_band_lists(g, keys)[i];
            let band = g.bands.h_bands@[i].curve_indices@;
            &&& sorted_desc(l, keys.x_max@)
            &&& l.to_multiset() == band.to_multiset()
            &&& forall|k: u32| #[trigger] l.filter(key_is(keys.x_max@, k)) == band.filter(key_is(keys.x_max@, k))
        },
        forall|j: int| 0 <= j < g.bands.v_bands@.len() ==> {
            let l = #[trigger] packed_band_lists(g, keys)[g.bands.h_bands@.len() + j];
            let band = g.bands.v_bands@[j].curve_indices@;
            &&& sorted_desc(l, keys.y_max@)
            &&& l.to_multiset() == band.to_multiset()
            &&& forall|k: u32| #[trigger] l.filter(key_is(keys.y_max@, k)) == band.filter(key_is(keys.y_max@, k))
        },
{
    let hl = g.bands.h_bands@.len();
    assert forall|i: int| 0 <= i < hl implies {
        let l = #[trigger] packed_band_lists(g, keys)[i];
        let band = g.bands.h_bands@[i].curve_indices@;
        &&& sorted_desc(l, keys.x_max@)
        &&& l.to_multiset() == band.to_multiset()
        &&& forall|k: u32| #[trigger] l.filter(key_is(keys.x_max@, k)) == band.filter(key_is(keys.x_max@, k))
    } by {
        let band = g.bands.h_bands@[i].curve_indices@;
        assert(packed_band_lists(g, keys)[i] == sort_by_key_desc(band, keys.x_max@));
        lemma_sort_by_key_desc(band, keys.x_max@);
    }
    assert forall|j: int| 0 <= j < g.bands.v_bands@.len() implies {
        let l = #[trigger] packed_band_lists(g, keys)[hl + j];
        let band = g.bands.v_bands@[j].curve_indices@;
        &&& sorted_desc(l, keys.y_max@)
        &&& l.to_multiset() == band.to_multiset()
        &&& forall|k: u32| #[trigger] l.filter(key_is(keys.y_max@, k)) == band.filter(key_is(keys.y_max@, k))
    } by {
        let band = g.bands.v_bands@[j].curve_indices@;
        assert(packed_band_lists(g, keys)[hl + j] == sort_by_key_desc(band, keys.y_max@));
        lemma_sort_by_key_desc(band, keys.y_max@);
    }
}

} // verus!
