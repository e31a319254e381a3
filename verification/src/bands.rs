use vstd::prelude::*;

verus! {

/// The curves of one band of a glyph, by their index in the glyph's curve list.
#[derive(Debug)]
pub struct BandEntry {
    pub curve_indices: Vec<usize>,
}

impl Default for BandEntry {
    fn default() -> (entry: Self)
        ensures
            entry.curve_indices@ == Seq::<usize>::empty(),
    {
        BandEntry { curve_indices: Vec::new() }
    }
}

/// The curve lists of a sequence of bands.
pub open spec fn entry_lists(bands: Seq<BandEntry>) -> Seq<Seq<usize>> {
    bands.map_values(|b: BandEntry| b.curve_indices@)
}

/// The horizontal and vertical bands of one glyph.
#[derive(Debug)]
pub struct GlyphBands {
    pub h_bands: Vec<BandEntry>,
    pub v_bands: Vec<BandEntry>,
    pub h_band_count: usize,
    pub v_band_count: usize,
}

impl GlyphBands {
    /// The band counts agree with the band lists.
    pub open spec fn wf(&self) -> bool {
        &&& self.h_bands@.len() == self.h_band_count
        &&& self.v_bands@.len() == self.v_band_count
    }

    /// The number of header texels of the glyph: one per band.
    pub open spec fn header_count(&self) -> int {
        self.h_band_count + self.v_band_count
    }

    /// The curve lists of all bands, horizontal ones first.
    pub open spec fn all_lists(&self) -> Seq<Seq<usize>> {
        entry_lists(self.h_bands@) + entry_lists(self.v_bands@)
    }

    /// Every curve index of every band is below `n`.
    pub open spec fn indices_below(&self, n: int) -> bool {
        forall|i: int, k: int|
            0 <= i < self.all_lists().len() && 0 <= k < self.all_lists()[i].len() ==> #[trigger] self.all_lists()[i][k] < n
    }
}

/// The band range of one curve along one axis, before clamping: the floor of the
/// curve's lowest and highest coordinate, normalised to the glyph box and scaled by
/// the band count. `None` when the glyph has no extent along that axis.
pub type RawSpan = Option<(isize, isize)>;

/// The raw band ranges of one curve: `h` along the y axis (horizontal bands),
/// `v` along the x axis (vertical bands).
#[derive(Clone, Copy, Debug)]
pub struct CurveSpan {
    pub h: RawSpan,
    pub v: RawSpan,
}

/// A raw band number clamped into `0..band_count`.
pub open spec fn clamp_band(b: int, band_count: int) -> int {
    if b < 0 {
        0
    } else if b > band_count - 1 {
        band_count - 1
    } else {
        b
    }
}

/// Whether a curve with raw span `span` lies in band `b`.
pub open spec fn span_covers(span: RawSpan, b: int, band_count: int) -> bool {
    match span {
        Some((lo, hi)) => clamp_band(lo as int, band_count) <= b <= clamp_band(hi as int, band_count),
        None => false,
    }
}

/// The test "curve `ci` lies in band `b`".
pub open spec fn covers_pred(spans: Seq<RawSpan>, b: int, band_count: int) -> spec_fn(usize) -> bool {
    |ci: usize| span_covers(spans[ci as int], b, band_count)
}

/// The curves among the first `n`, in increasing index order, whose spans cover band `b`.
pub open spec fn members_upto(spans: Seq<RawSpan>, b: int, band_count: int, n: int) -> Seq<usize> {
    Seq::new(n as nat, |i: int| i as usize).filter(covers_pred(spans, b, band_count))
}

/// The curves, in increasing index order, whose spans cover band `b`.
pub open spec fn band_members(spans: Seq<RawSpan>, b: int, band_count: int) -> Seq<usize> {
    members_upto(spans, b, band_count, spans.len() as int)
}

proof fn lemma_members_step(spans: Seq<RawSpan>, b: int, band_count: int, n: int)
    requires
        0 <= n <= usize::MAX,
    ensures
        members_upto(spans, b, band_count, n + 1) == if span_covers(spans[n], b, band_count) {
            members_upto(spans, b, band_count, n).push(n as usize)
        } else {
            members_upto(spans, b, band_count, n)
        },
{
    let s = Seq::new(n as nat, |i: int| i as usize);
    assert(Seq::new((n + 1) as nat, |i: int| i as usize) =~= s.push(n as usize));
    s.lemma_filter_push(n as usize, covers_pred(spans, b, band_count));
}

proof fn lemma_members_empty(spans: Seq<RawSpan>, b: int, band_count: int)
    ensures
        members_upto(spans, b, band_count, 0) == Seq::<usize>::empty(),
{
    reveal(Seq::filter);
    assert(Seq::new(0, |i: int| i as usize) =~= Seq::<usize>::empty());
}

/// A list of `n` empty bands.
fn empty_bands(n: usize) -> (bands: Vec<BandEntry>)
    ensures
        bands@.len() == n,
        forall|b: int| 0 <= b < n ==> (#[trigger] bands@[b]).curve_indices@ == Seq::<usize>::empty(),
{
    let mut bands: Vec<BandEntry> = Vec::new();
    for i in 0..n
        invariant
            bands@.len() == i,
            forall|b: int| 0 <= b < i ==> (#[trigger] bands@[b]).curve_indices@ == Seq::<usize>::empty(),
    {
        bands.push(BandEntry::default());
    }
    bands
}

/// Adds curve `ci` to every band that its raw span covers.
fn add_to_bands(bands: &mut Vec<BandEntry>, span: RawSpan, ci: usize, Ghost(spans): Ghost<Seq<RawSpan>>, band_count: usize)
    requires
        old(bands)@.len() == band_count,
        0 < band_count <= isize::MAX,
        ci < spans.len(),
        spans[ci as int] == span,
        forall|b: int| 0 <= b < band_count ==> (#[trigger] old(bands)@[b]).curve_indices@
            == members_upto(spans, b, band_count as int, ci as int),
    ensures
        final(bands)@.len() == band_count,
        forall|b: int| 0 <= b < band_count ==> (#[trigger] final(bands)@[b]).curve_indices@
            == members_upto(spans, b, band_count as int, ci + 1),
{
    proof {
        assert forall|b: int| 0 <= b < band_count implies members_upto(spans, b, band_count as int, ci + 1)
            == if span_covers(span, b, band_count as int) {
                members_upto(spans, b, band_count as int, ci as int).push(ci)
            } else {
                members_upto(spans, b, band_count as int, ci as int)
            } by {
            lemma_members_step(spans, b, band_count as int, ci as int);
        }
    }
    if let Some((lo, hi)) = span {
        let b0 = clamp_band_index(lo, band_count);
        let b1 = clamp_band_index(hi, band_count);
        let mut b = b0;
        while b <= b1
            invariant
                bands@.len() == band_count,
                0 < band_count <= isize::MAX,
                b0 <= b,
                b == b0 || b <= b1 + 1,
                b1 < band_count,
                b0 == clamp_band(lo as int, band_count as int),
                b1 == clamp_band(hi as int, band_count as int),
                span == Some((lo, hi)),
                forall|bb: int| 0 <= bb < band_count ==> (#[trigger] bands@[bb]).curve_indices@
                    == if b0 <= bb < b {
                        members_upto(spans, bb, band_count as int, ci as int).push(ci)
                    } else {
                        members_upto(spans, bb, band_count as int, ci as int)
                    },
            decreases b1 + 1 - b,
        {
            bands[b].curve_indices.push(ci);
            b = b + 1;
        }
        assert forall|bb: int| 0 <= bb < band_count implies (#[trigger] bands@[bb]).curve_indices@
            == members_upto(spans, bb, band_count as int, ci + 1) by {
            assert(span_covers(span, bb, band_count as int) == (b0 <= bb < b));
        }
    } else {
        assert forall|bb: int| 0 <= bb < band_count implies (#[trigger] bands@[bb]).curve_indices@
            == members_upto(spans, bb, band_count as int, ci + 1) by {
            assert(!span_covers(span, bb, band_count as int));
        }
    }
}

/// Distributes the curves of a glyph over `band_count` horizontal and
/// `band_count` vertical bands. Curve `ci` goes to every band between its clamped
/// raw span ends, and each band lists its curves in increasing index order.
pub fn build_bands(spans: &[CurveSpan], band_count: usize) -> (bands: GlyphBands)
    requires
        band_count <= isize::MAX,
        band_count == 0 ==> forall|i: int| 0 <= i < spans@.len() ==> (#[trigger] spans@[i]).h is None && spans@[i].v is None,
    ensures
        bands.wf(),
        bands.h_band_count == band_count,
        bands.v_band_count == band_count,
        forall|b: int| 0 <= b < band_count ==> (#[trigger] bands.h_bands@[b]).curve_indices@
            == band_members(h_spans(spans@), b, band_count as int),
        forall|b: int| 0 <= b < band_count ==> (#[trigger] bands.v_bands@[b]).curve_indices@
            == band_members(v_spans(spans@), b, band_count as int),
{
    let mut h_bands = empty_bands(band_count);
    let mut v_bands = empty_bands(band_count);
    let ghost hs = h_spans(spans@);
    let ghost vs = v_spans(spans@);
    proof {
        assert forall|b: int| 0 <= b < band_count implies members_upto(hs, b, band_count as int, 0) == Seq::<usize>::empty()
            && members_upto(vs, b, band_count as int, 0) == Seq::<usize>::empty() by {
            lemma_members_empty(hs, b, band_count as int);
            lemma_members_empty(vs, b, band_count as int);
        }
    }
    for ci in 0..spans.len()
        invariant
            h_bands@.len() == band_count,
            v_bands@.len() == band_count,
            band_count <= isize::MAX,
            band_count == 0 ==> forall|i: int| 0 <= i < spans@.len() ==> (#[trigger] spans@[i]).h is None && spans@[i].v is None,
            hs == h_spans(spans@),
            vs == v_spans(spans@),
            forall|b: int| 0 <= b < band_count ==> (#[trigger] h_bands@[b]).curve_indices@
                == members_upto(hs, b, band_count as int, ci as int),
            forall|b: int| 0 <= b < band_count ==> (#[trigger] v_bands@[b]).curve_indices@
                == members_upto(vs, b, band_count as int, ci as int),
    {
        let span = spans[ci];
        if band_count > 0 {
            add_to_bands(&mut h_bands, span.h, ci, Ghost(hs), band_count);
            add_to_bands(&mut v_bands, span.v, ci, Ghost(vs), band_count);
        } else {
            assert(span.h is None && span.v is None);
        }
    }
    GlyphBands { h_bands, v_bands, h_band_count: band_count, v_band_count: band_count }
}

/// The horizontal spans of a list of curves.
pub open spec fn h_spans(spans: Seq<CurveSpan>) -> Seq<RawSpan> {
    spans.map_values(|s: CurveSpan| s.h)
}

/// The vertical spans of a list of curves.
pub open spec fn v_spans(spans: Seq<CurveSpan>) -> Seq<RawSpan> {
    spans.map_values(|s: CurveSpan| s.v)
}

/// Clamps a raw band number into `0..band_count`.
pub fn clamp_band_index(b: isize, band_count: usize) -> (r: usize)
    requires
        0 < band_count <= isize::MAX,
    ensures
        r == clamp_band(b as int, band_count as int),
        r < band_count,
        0 <= b < band_count ==> r == b,
        b < 0 ==> r == 0,
        b >= band_count ==> r == band_count - 1,
{
    let top: isize = (band_count - 1) as isize;
    if b < 0 {
        0
    } else if b > top {
        top as usize
    } else {
        b as usize
    }
}


proof fn lemma_members_upto_facts(spans: Seq<RawSpan>, b: int, band_count: int, n: int)
    requires
        0 <= n <= usize::MAX + 1,
    ensures
        forall|i: int, j: int| 0 <= i < j < members_upto(spans, b, band_count, n).len()
            ==> #[trigger] members_upto(spans, b, band_count, n)[i] < #[trigger] members_upto(spans, b, band_count, n)[j],
        forall|i: int| 0 <= i < members_upto(spans, b, band_count, n).len()
            ==> #[trigger] members_upto(spans, b, band_count, n)[i] < n,
        forall|c: usize| #[trigger] members_upto(spans, b, band_count, n).contains(c)
            <==> (c < n && span_covers(spans[c as int], b, band_count)),
    decreases n,
{
    if n == 0 {
        lemma_members_empty(spans, b, band_count);
    } else {
        lemma_members_upto_facts(spans, b, band_count, n - 1);
        lemma_members_step(spans, b, band_count, n - 1);
        let prev = members_upto(spans, b, band_count, n - 1);
        let cur = members_upto(spans, b, band_count, n);
        assert forall|c: usize| #[trigger] cur.contains(c) <==> (c < n && span_covers(spans[c as int], b, band_count)) by {
            if span_covers(spans[n - 1], b, band_count) {
                if c == n - 1 {
                    assert(cur[prev.len() as int] == c);
                } else if cur.contains(c) {
                    let k = choose|k: int| 0 <= k < cur.len() && cur[k] == c;
                    assert(prev[k] == c);
                } else if prev.contains(c) {
                    let k = choose|k: int| 0 <= k < prev.len() && prev[k] == c;
                    assert(cur[k] == c);
                }
            }
        }
    }
}

/// Each band lists its curves once each, in increasing index order, and a
/// curve is in a band exactly when its clamped span covers the band.
pub proof fn lemma_band_members(spans: Seq<RawSpan>, b: int, band_count: int)
    requires
        spans.len() <= usize::MAX,
    ensures
        forall|i: int, j: int| 0 <= i < j < band_members(spans, b, band_count).len()
            ==> #[trigger] band_members(spans, b, band_count)[i] < #[trigger] band_members(spans, b, band_count)[j],
        forall|c: usize| #[trigger] band_members(spans, b, band_count).contains(c)
            <==> (c < spans.len() && span_covers(spans[c as int], b, band_count)),
{
    lemma_members_upto_facts(spans, b, band_count, spans.len() as int);
}

/// A curve whose raw span is not reversed lies in at least one band: no curve
/// of a glyph with an extent is lost.
pub proof fn lemma_curve_has_a_band(spans: Seq<RawSpan>, c: usize, band_count: int)
    requires
        spans.len() <= usize::MAX,
        c < spans.len(),
        band_count > 0,
        spans[c as int] matches Some((lo, hi)) && lo <= hi,
    ensures
        exists|b: int| 0 <= b < band_count && #[trigger] band_members(spans, b, band_count).contains(c),
{
    let (lo, hi) = spans[c as int]->0;
    let b = clamp_band(lo as int, band_count);
    lemma_band_members(spans, b, band_count);
    assert(band_members(spans, b, band_count).contains(c));
}


/// Clamping keeps a band number that is already in `0..band_count`, sends
/// negative numbers to band 0 and numbers past the top to the last band.
pub proof fn lemma_clamp_band(b: int, band_count: int)
    requires
        band_count > 0,
    ensures
        0 <= clamp_band(b, band_count) < band_count,
        0 <= b < band_count ==> clamp_band(b, band_count) == b,
        b < 0 ==> clamp_band(b, band_count) == 0,
        b >= band_count ==> clamp_band(b, band_count) == band_count - 1,
{
}

/// A curve whose raw span `(lo, hi)` lies within `0..band_count` is in exactly
/// the bands `lo..=hi`; a curve without a span is in no band.
pub proof fn lemma_in_range_span_bands(spans: Seq<RawSpan>, c: usize, b: int, band_count: int)
    requires
        spans.len() <= usize::MAX,
        c < spans.len(),
        band_count > 0,
    ensures
        spans[c as int] matches Some((lo, hi)) ==> (0 <= lo < band_count && 0 <= hi < band_count ==> (
            band_members(spans, b, band_count).contains(c) <==> (lo <= b <= hi))),
        spans[c as int] is None ==> !band_members(spans, b, band_count).contains(c),
{
    lemma_band_members(spans, b, band_count);
}

} // verus!
