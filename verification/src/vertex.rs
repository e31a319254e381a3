use vstd::prelude::*;

use crate::packing::GlyphBandInfo;

verus! {

/// Corner `k` (of six) of the two triangles of a quad whose corners are numbered
/// 0 to 3 counterclockwise: triangles 0-1-2 and 0-2-3.
pub open spec fn quad_corner(k: int) -> int {
    if k == 0 || k == 3 {
        0
    } else if k == 1 {
        1
    } else if k == 2 || k == 4 {
        2
    } else {
        3
    }
}

/// The triangle list of `quad_count` quads of four vertices each, laid out one
/// after the other: six indices per quad.
pub fn quad_indices(quad_count: u32) -> (indices: Vec<u32>)
    requires
        quad_count <= 0x4000_0000,
    ensures
        indices@.len() == 6 * quad_count,
        forall|i: int| 0 <= i < indices@.len() ==> #[trigger] indices@[i] == 4 * (i / 6) + quad_corner(i % 6),
{
    let mut indices: Vec<u32> = Vec::new();
    let mut quad_idx: u32 = 0;
    while quad_idx < quad_count
        invariant
            quad_count <= 0x4000_0000,
            quad_idx <= quad_count,
            indices@.len() == 6 * quad_idx,
            forall|i: int| 0 <= i < indices@.len() ==> #[trigger] indices@[i] == 4 * (i / 6) + quad_corner(i % 6),
        decreases quad_count - quad_idx,
    {
        let base = quad_idx * 4;
        let ghost before = indices@;
        indices.push(base);
        indices.push(base + 1);
        indices.push(base + 2);
        indices.push(base);
        indices.push(base + 2);
        indices.push(base + 3);
        proof {
            assert forall|i: int| 0 <= i < indices@.len() implies #[trigger] indices@[i] == 4 * (i / 6) + quad_corner(i % 6) by {
                if i < before.len() {
                    assert(indices@[i] == before[i]);
                }
            }
        }
        quad_idx = quad_idx + 1;
    }
    indices
}

/// The 32-bit word that carries a glyph's band location to the shader: row in
/// the high half, column in the low half.
pub fn glyph_loc_word(info: GlyphBandInfo) -> (word: u32)
    ensures
        word == ((info.glyph_loc_y as u32) << 16u32) | (info.glyph_loc_x as u32),
        word == info.glyph_loc_y * 65536 + info.glyph_loc_x,
{
    let x = info.glyph_loc_x as u32;
    let y = info.glyph_loc_y as u32;
    let word = (y << 16u32) | x;
    assert(word == y * 65536 + x) by (bit_vector)
        requires
            x < 65536,
            y < 65536,
            word == (y << 16u32) | x;
    word
}

/// `n - 1`, or 0 when `n` is 0.
pub open spec fn last_band(n: usize) -> usize {
    if n == 0 {
        0
    } else {
        (n - 1) as usize
    }
}

/// The 32-bit word that carries a glyph's largest band numbers to the shader:
/// the last horizontal band in the high half, the last vertical band in the low
/// half (each cut to 32 bits first).
pub fn band_max_word(h_band_count: usize, v_band_count: usize) -> (word: u32)
    ensures
        word == (((last_band(h_band_count) as u32) << 16u32) | (last_band(v_band_count) as u32)),
        last_band(v_band_count) < 65536 ==> word == (last_band(h_band_count) as u32 % 65536) * 65536
            + last_band(v_band_count),
        1 <= h_band_count <= 65536 && 1 <= v_band_count <= 65536 ==> word == (h_band_count - 1) * 65536 + (
        v_band_count - 1),
        h_band_count <= 1 && v_band_count <= 1 ==> word == 0,
{
    let band_max_x = v_band_count.saturating_sub(1) as u32;
    let band_max_y = h_band_count.saturating_sub(1) as u32;
    let word = (band_max_y << 16u32) | band_max_x;
    if band_max_x < 65536 {
        assert(word == (band_max_y % 65536) * 65536 + band_max_x) by (bit_vector)
            requires
                band_max_x < 65536,
                word == (band_max_y << 16u32) | band_max_x;
    }
    word
}

/// Byte `k` (0 = least significant) of `v`.
pub open spec fn le_byte(v: u32, k: int) -> u8 {
    ((v as int / pow256(k)) % 256) as u8
}

/// 256 to the power `k`, for `k` in 0..4.
pub open spec fn pow256(k: int) -> int {
    if k == 0 {
        1
    } else if k == 1 {
        256
    } else if k == 2 {
        65536
    } else {
        16777216
    }
}

/// The little-endian bytes of a run of 32-bit texture values.
pub fn words_to_le_bytes(words: &Vec<u32>) -> (bytes: Vec<u8>)
    requires
        4 * words@.len() <= usize::MAX,
    ensures
        bytes@.len() == 4 * words@.len(),
        forall|i: int| 0 <= i < bytes@.len() ==> #[trigger] bytes@[i] == le_byte(words@[i / 4], i % 4),
{
    let mut bytes: Vec<u8> = Vec::with_capacity(words.len() * 4);
    for n in 0..words.len()
        invariant
            bytes@.len() == 4 * n,
            forall|i: int| 0 <= i < bytes@.len() ==> #[trigger] bytes@[i] == le_byte(words@[i / 4], i % 4),
    {
        let v = words[n];
        let b0 = (v & 0xff) as u8;
        let b1 = ((v >> 8u32) & 0xff) as u8;
        let b2 = ((v >> 16u32) & 0xff) as u8;
        let b3 = (v >> 24u32) as u8;
        assert(b0 == v % 256 && b1 == (v / 256) % 256 && b2 == (v / 65536) % 256 && b3 == (v / 16777216) % 256) by (bit_vector)
            requires
                b0 == (v & 0xff) as u8,
                b1 == ((v >> 8u32) & 0xff) as u8,
                b2 == ((v >> 16u32) & 0xff) as u8,
                b3 == (v >> 24u32) as u8;
        let ghost before = bytes@;
        bytes.push(b0);
        bytes.push(b1);
        bytes.push(b2);
        bytes.push(b3);
        proof {
            assert forall|i: int| 0 <= i < bytes@.len() implies #[trigger] bytes@[i] == le_byte(words@[i / 4], i % 4) by {
                if i < before.len() {
                    assert(bytes@[i] == before[i]);
                }
            }
        }
    }
    bytes
}

/// The per-vertex attributes of the text mesh, each a group of values of the
/// flat vertex array.
#[derive(Debug)]
pub struct VertexAttributes<T> {
    pub position: Vec<[T; 3]>,
    pub normal: Vec<[T; 3]>,
    pub pos: Vec<[T; 4]>,
    pub tex: Vec<[T; 4]>,
    pub jac: Vec<[T; 4]>,
    pub bnd: Vec<[T; 4]>,
}

/// Vertex `v` of the flat array `vertices` is split into the attribute values
/// `p3`, `n3`, `a0`, `a1`, `a2`, `a3`.
pub open spec fn vertex_split<T>(vertices: Seq<T>, zero: T, v: int, p3: [T; 3], n3: [T; 3], a0: [T; 4], a1: [T; 4], a2: [T; 4], a3: [T; 4]) -> bool {
    &&& p3@ == seq![vertices[16 * v], vertices[16 * v + 1], zero]
    &&& n3@ == seq![vertices[16 * v + 2], vertices[16 * v + 3], zero]
    &&& a0@ == vertices.subrange(16 * v, 16 * v + 4)
    &&& a1@ == vertices.subrange(16 * v + 4, 16 * v + 8)
    &&& a2@ == vertices.subrange(16 * v + 8, 16 * v + 12)
    &&& a3@ == vertices.subrange(16 * v + 12, 16 * v + 16)
}

/// Splits a flat vertex array of sixteen values per vertex into the mesh
/// attributes: position and normal take values 0-1 and 2-3 (third component
/// `zero`), the four vec4 attributes take values 0-3, 4-7, 8-11 and 12-15.
/// Trailing values that do not make a whole vertex are dropped.
pub fn split_vertex_attributes<T: Copy>(vertices: &Vec<T>, zero: T) -> (attrs: VertexAttributes<T>)
    ensures
        attrs.position@.len() == vertices@.len() / 16,
        attrs.normal@.len() == vertices@.len() / 16,
        attrs.pos@.len() == vertices@.len() / 16,
        attrs.tex@.len() == vertices@.len() / 16,
        attrs.jac@.len() == vertices@.len() / 16,
        attrs.bnd@.len() == vertices@.len() / 16,
        forall|v: int| 0 <= v < vertices@.len() / 16 ==> vertex_split(
            vertices@,
            zero,
            v,
            #[trigger] attrs.position@[v],
            attrs.normal@[v],
            attrs.pos@[v],
            attrs.tex@[v],
            attrs.jac@[v],
            attrs.bnd@[v],
        ),
        forall|v: int| 0 <= v < vertices@.len() / 16 ==> (#[trigger] attrs.position@[v])@
            == seq![vertices@[16 * v], vertices@[16 * v + 1], zero],
        forall|v: int| 0 <= v < vertices@.len() / 16 ==> (#[trigger] attrs.normal@[v])@
            == seq![vertices@[16 * v + 2], vertices@[16 * v + 3], zero],
        forall|v: int, k: int| 0 <= v < vertices@.len() / 16 && 0 <= k < 4 ==> (#[trigger] attrs.pos@[v]@[k])
            == vertices@[16 * v + k],
        forall|v: int, k: int| 0 <= v < vertices@.len() / 16 && 0 <= k < 4 ==> (#[trigger] attrs.tex@[v]@[k])
            == vertices@[16 * v + 4 + k],
        forall|v: int, k: int| 0 <= v < vertices@.len() / 16 && 0 <= k < 4 ==> (#[trigger] attrs.jac@[v]@[k])
            == vertices@[16 * v + 8 + k],
        forall|v: int, k: int| 0 <= v < vertices@.len() / 16 && 0 <= k < 4 ==> (#[trigger] attrs.bnd@[v]@[k])
            == vertices@[16 * v + 12 + k],
        forall|v: int| 0 <= v < vertices@.len() / 16 ==> (#[trigger] attrs.pos@[v])@.len() == 4
            && attrs.tex@[v]@.len() == 4 && attrs.jac@[v]@.len() == 4 && attrs.bnd@[v]@.len() == 4,
{
    let count = vertices.len() / 16;
    let mut position: Vec<[T; 3]> = Vec::with_capacity(count);
    let mut normal: Vec<[T; 3]> = Vec::with_capacity(count);
    let mut pos: Vec<[T; 4]> = Vec::with_capacity(count);
    let mut tex: Vec<[T; 4]> = Vec::with_capacity(count);
    let mut jac: Vec<[T; 4]> = Vec::with_capacity(count);
    let mut bnd: Vec<[T; 4]> = Vec::with_capacity(count);
    for v in 0..count
        invariant
            count == vertices@.len() / 16,
            vertices@.len() <= usize::MAX,
            position@.len() == v,
            normal@.len() == v,
            pos@.len() == v,
            tex@.len() == v,
            jac@.len() == v,
            bnd@.len() == v,
            forall|w: int| 0 <= w < v ==> vertex_split(
                vertices@,
                zero,
                w,
                #[trigger] position@[w],
                normal@[w],
                pos@[w],
                tex@[w],
                jac@[w],
                bnd@[w],
            ),
    {
        assert(16 * (vertices@.len() / 16) <= vertices@.len());
        assert(16 * v + 16 <= vertices@.len());
        let b = v * 16;
        let p3 = [vertices[b], vertices[b + 1], zero];
        let n3 = [vertices[b + 2], vertices[b + 3], zero];
        let a0 = [vertices[b], vertices[b + 1], vertices[b + 2], vertices[b + 3]];
        let a1 = [vertices[b + 4], vertices[b + 5], vertices[b + 6], vertices[b + 7]];
        let a2 = [vertices[b + 8], vertices[b + 9], vertices[b + 10], vertices[b + 11]];
        let a3 = [vertices[b + 12], vertices[b + 13], vertices[b + 14], vertices[b + 15]];
        proof {
            assert(p3@ =~= seq![vertices@[16 * v], vertices@[16 * v + 1], zero]);
            assert(n3@ =~= seq![vertices@[16 * v + 2], vertices@[16 * v + 3], zero]);
            assert(a0@ =~= vertices@.subrange(16 * v, 16 * v + 4));
            assert(a1@ =~= vertices@.subrange(16 * v + 4, 16 * v + 8));
            assert(a2@ =~= vertices@.subrange(16 * v + 8, 16 * v + 12));
            assert(a3@ =~= vertices@.subrange(16 * v + 12, 16 * v + 16));
            assert(vertex_split(vertices@, zero, v as int, p3, n3, a0, a1, a2, a3));
        }
        let ghost (op, on, oa0, oa1, oa2, oa3) = (position@, normal@, pos@, tex@, jac@, bnd@);
        position.push(p3);
        normal.push(n3);
        pos.push(a0);
        tex.push(a1);
        jac.push(a2);
        bnd.push(a3);
        proof {
            assert forall|w: int| 0 <= w < v + 1 implies vertex_split(
                vertices@,
                zero,
                w,
                #[trigger] position@[w],
                normal@[w],
                pos@[w],
                tex@[w],
                jac@[w],
                bnd@[w],
            ) by {
                if w < v {
                    assert(vertex_split(vertices@, zero, w, op[w], on[w], oa0[w], oa1[w], oa2[w], oa3[w]));
                }
            }
        }
    }
    proof {
        assert forall|v: int| 0 <= v < count implies (#[trigger] pos@[v])@.len() == 4 && tex@[v]@.len() == 4
            && jac@[v]@.len() == 4 && bnd@[v]@.len() == 4
            && position@[v]@ == seq![vertices@[16 * v], vertices@[16 * v + 1], zero]
            && normal@[v]@ == seq![vertices@[16 * v + 2], vertices@[16 * v + 3], zero]
            && (forall|k: int| 0 <= k < 4 ==> pos@[v]@[k] == vertices@[16 * v + k]
                && tex@[v]@[k] == vertices@[16 * v + 4 + k]
                && jac@[v]@[k] == vertices@[16 * v + 8 + k]
                && bnd@[v]@[k] == vertices@[16 * v + 12 + k]) by {
            assert(vertex_split(vertices@, zero, v, position@[v], normal@[v], pos@[v], tex@[v], jac@[v], bnd@[v]));
        }
        assert forall|v: int| 0 <= v < count implies (#[trigger] position@[v])@
            == seq![vertices@[16 * v], vertices@[16 * v + 1], zero] by {
            assert(pos@[v]@.len() == 4);
        }
        assert forall|v: int| 0 <= v < count implies (#[trigger] normal@[v])@
            == seq![vertices@[16 * v + 2], vertices@[16 * v + 3], zero] by {
            assert(pos@[v]@.len() == 4);
        }
        assert forall|v: int, k: int| 0 <= v < count && 0 <= k < 4 implies (#[trigger] pos@[v]@[k]) == vertices@[16 * v + k]
            && tex@[v]@[k] == vertices@[16 * v + 4 + k] && jac@[v]@[k] == vertices@[16 * v + 8 + k]
            && bnd@[v]@[k] == vertices@[16 * v + 12 + k] by {
            assert(pos@[v]@.len() == 4);
        }
        assert forall|v: int, k: int| 0 <= v < count && 0 <= k < 4 implies (#[trigger] tex@[v]@[k]) == vertices@[16 * v + 4 + k] by {
            assert(pos@[v]@.len() == 4);
            assert(pos@[v]@[k] == vertices@[16 * v + k]);
        }
        assert forall|v: int, k: int| 0 <= v < count && 0 <= k < 4 implies (#[trigger] jac@[v]@[k]) == vertices@[16 * v + 8 + k] by {
            assert(pos@[v]@.len() == 4);
            assert(pos@[v]@[k] == vertices@[16 * v + k]);
        }
        assert forall|v: int, k: int| 0 <= v < count && 0 <= k < 4 implies (#[trigger] bnd@[v]@[k]) == vertices@[16 * v + 12 + k] by {
            assert(pos@[v]@.len() == 4);
            assert(pos@[v]@[k] == vertices@[16 * v + k]);
        }
    }
    VertexAttributes { position, normal, pos, tex, jac, bnd }
}


/// Every index of the triangle list names one of the quads' vertices, and the
/// two triangles of quad `q` use only the four vertices of quad `q`.
pub proof fn lemma_quad_indices_in_range(quad_count: int, i: int)
    requires
        0 <= i < 6 * quad_count,
    ensures
        4 * (i / 6) <= 4 * (i / 6) + quad_corner(i % 6) < 4 * (i / 6) + 4,
        4 * (i / 6) + quad_corner(i % 6) < 4 * quad_count,
{
}

/// The four little-endian bytes of a value give the value back.
pub proof fn lemma_le_bytes_reassemble(v: u32)
    ensures
        le_byte(v, 0) + 256 * le_byte(v, 1) + 65536 * le_byte(v, 2) + 16777216 * le_byte(v, 3) == v,
{
    assert(v % 256 + 256 * ((v / 256) % 256) + 65536 * ((v / 65536) % 256) + 16777216 * ((v / 16777216) % 256) == v)
        by (bit_vector);
}


/// Quad `q` is drawn as the two triangles (0, 1, 2) and (0, 2, 3) of its own
/// four vertices `4q..4q+4`: they share the diagonal 0-2 and together use all
/// four corners.
pub proof fn lemma_quad_triangles(q: int)
    requires
        0 <= q,
    ensures
        ({
            let idx = |k: int| 4 * ((6 * q + k) / 6) + quad_corner((6 * q + k) % 6);
            &&& idx(0) == 4 * q && idx(1) == 4 * q + 1 && idx(2) == 4 * q + 2
            &&& idx(3) == 4 * q && idx(4) == 4 * q + 2 && idx(5) == 4 * q + 3
        }),
{
}

} // verus!
