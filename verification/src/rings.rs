//! Flat ring storage of the maximum-inscribed-circle input.
//!
//! All rings of a polygon (exterior first, then the holes) are stored back to
//! back in one coordinate buffer; `RingMeta` records where each ring lives.
//! The coordinate type `C` is left open: the solvers store `[f64; 2]` points,
//! the layout logic never looks inside them.
use vstd::prelude::*;

verus! {

/// Metadata describing a ring inside the flat coordinate buffer.
#[derive(Debug, Clone, Copy)]
pub struct RingMeta {
    pub start: usize,
    pub end: usize,
    pub is_hole: bool,
}

/// Normalized polygon input used by the maximum-inscribed-circle solvers.
pub struct HostPolygon<C, P> {
    /// Flat coordinate storage for all rings.
    pub coords: Vec<C>,
    /// Ring offsets into `coords`.
    pub rings: Vec<RingMeta>,
    /// Canonicalized geometry used for predicates.
    pub polygon: P,
    /// Original polygon before normalization.
    pub original_polygon: P,
}

/// Concatenation of `rings[0..k)`.
pub open spec fn flatten<C>(rings: Seq<Seq<C>>, k: int) -> Seq<C>
    decreases k,
{
    if k <= 0 {
        Seq::empty()
    } else {
        flatten(rings, k - 1) + rings[k - 1]
    }
}

/// Vertices of rings `0..k` without each ring's closing point (rings with
/// fewer than two points contribute nothing).
pub open spec fn open_vertices<C>(coords: Seq<C>, rings: Seq<RingMeta>, k: int) -> Seq<C>
    decreases k,
{
    if k <= 0 {
        Seq::empty()
    } else {
        let m = rings[k - 1];
        let prev = open_vertices(coords, rings, k - 1);
        if m.end - m.start < 2 {
            prev
        } else {
            prev + coords.subrange(m.start as int, m.end - 1)
        }
    }
}

/// One boundary edge: ring `ring_id`, edge `edge_id` from `a` to `b`.
#[derive(Debug, Clone, Copy)]
pub struct RingEdge<C> {
    pub ring_id: usize,
    pub edge_id: usize,
    pub is_hole: bool,
    pub a: C,
    pub b: C,
}

/// Edges of one ring: consecutive point pairs of its slot.
pub open spec fn ring_edges_of<C>(coords: Seq<C>, m: RingMeta, rid: int) -> Seq<RingEdge<C>> {
    if m.end - m.start < 2 {
        Seq::empty()
    } else {
        Seq::new(
            (m.end - m.start - 1) as nat,
            |e: int|
                RingEdge {
                    ring_id: rid as usize,
                    edge_id: e as usize,
                    is_hole: m.is_hole,
                    a: coords[m.start + e],
                    b: coords[m.start + e + 1],
                },
        )
    }
}

/// Edges of rings `0..k`, ring after ring.
pub open spec fn all_edges<C>(coords: Seq<C>, rings: Seq<RingMeta>, k: int) -> Seq<RingEdge<C>>
    decreases k,
{
    if k <= 0 {
        Seq::empty()
    } else {
        all_edges(coords, rings, k - 1) + ring_edges_of(coords, rings[k - 1], k - 1)
    }
}

/// Every listed edge joins two consecutive points of its own ring: the
/// points at its edge index and the next one, inside the ring's slot, with
/// the ring's hole flag; and the edges come ring after ring, each ring's
/// edges in increasing index order, so no edge is listed twice.
pub proof fn lemma_edges_join_ring_points<C>(coords: Seq<C>, rings: Seq<RingMeta>, k: int)
    requires
        0 <= k <= rings.len(),
        k <= usize::MAX,
        forall|i: int|
            0 <= i < k ==> (#[trigger] rings[i]).start <= rings[i].end && rings[i].end
                <= coords.len(),
    ensures
        forall|j: int|
            0 <= j < all_edges(coords, rings, k).len() ==> {
                let e = #[trigger] all_edges(coords, rings, k)[j];
                &&& e.ring_id < k
                &&& e.edge_id + 1 < rings[e.ring_id as int].end - rings[e.ring_id as int].start
                &&& e.is_hole == rings[e.ring_id as int].is_hole
                &&& e.a == coords[rings[e.ring_id as int].start + e.edge_id]
                &&& e.b == coords[rings[e.ring_id as int].start + e.edge_id + 1]
            },
        forall|j1: int, j2: int|
            0 <= j1 < j2 < all_edges(coords, rings, k).len() ==> {
                let e1 = #[trigger] all_edges(coords, rings, k)[j1];
                let e2 = #[trigger] all_edges(coords, rings, k)[j2];
                e1.ring_id < e2.ring_id || (e1.ring_id == e2.ring_id && e1.edge_id < e2.edge_id)
            },
    decreases k,
{
    if k > 0 {
        lemma_edges_join_ring_points(coords, rings, k - 1);
        let prev = all_edges(coords, rings, k - 1);
        let last = ring_edges_of(coords, rings[k - 1], k - 1);
        let all = all_edges(coords, rings, k);
        assert(all == prev + last);
        assert forall|j: int| 0 <= j < all.len() implies {
            let e = #[trigger] all[j];
            &&& e.ring_id < k
            &&& e.edge_id + 1 < rings[e.ring_id as int].end - rings[e.ring_id as int].start
            &&& e.is_hole == rings[e.ring_id as int].is_hole
            &&& e.a == coords[rings[e.ring_id as int].start + e.edge_id]
            &&& e.b == coords[rings[e.ring_id as int].start + e.edge_id + 1]
        } by {
            if j < prev.len() {
                assert(all[j] == prev[j]);
            } else {
                assert(all[j] == last[j - prev.len()]);
            }
        }
        assert forall|j1: int, j2: int| 0 <= j1 < j2 < all.len() implies {
            let e1 = #[trigger] all[j1];
            let e2 = #[trigger] all[j2];
            e1.ring_id < e2.ring_id || (e1.ring_id == e2.ring_id && e1.edge_id < e2.edge_id)
        } by {
            if j2 < prev.len() {
                assert(all[j1] == prev[j1]);
                assert(all[j2] == prev[j2]);
            } else if j1 < prev.len() {
                assert(all[j1] == prev[j1]);
                assert(all[j2] == last[j2 - prev.len()]);
            } else {
                assert(all[j1] == last[j1 - prev.len()]);
                assert(all[j2] == last[j2 - prev.len()]);
            }
        }
    }
}

impl<C: Copy, P> HostPolygon<C, P> {
    /// The rings tile the buffer in order: the exterior first, then holes.
    pub open spec fn wf(&self) -> bool {
        &&& self.rings.len() >= 1
        &&& self.rings@[0].start == 0
        &&& !self.rings@[0].is_hole
        &&& forall|i: int| 1 <= i < self.rings.len() ==> (#[trigger] self.rings@[i]).is_hole
        &&& forall|i: int|
            0 <= i < self.rings.len() ==> (#[trigger] self.rings@[i]).start <= self.rings@[i].end
        &&& forall|i: int|
            0 <= i < self.rings.len() - 1 ==> (#[trigger] self.rings@[i]).end == self.rings@[i
                + 1].start
        &&& self.rings@[self.rings.len() - 1].end == self.coords.len()
    }

    /// Coordinates of ring `i`.
    pub open spec fn ring_view(&self, i: int) -> Seq<C> {
        self.coords@.subrange(self.rings@[i].start as int, self.rings@[i].end as int)
    }

    /// Lays out the exterior ring and the holes back to back.
    pub fn from_rings(exterior: &Vec<C>, holes: &Vec<Vec<C>>, polygon: P, original_polygon: P) -> (r:
        Self)
        requires
            exterior.len() + flatten(holes@.map_values(|h: Vec<C>| h@), holes.len() as int).len()
                <= usize::MAX,
        ensures
            r.wf(),
            r.rings.len() == holes.len() + 1,
            r.ring_view(0) == exterior@,
            forall|i: int| 0 <= i < holes.len() ==> #[trigger] r.ring_view(i + 1) == holes@[i]@,
            r.coords@ == exterior@ + flatten(holes@.map_values(|h: Vec<C>| h@), holes.len() as int),
            r.polygon == polygon,
            r.original_polygon == original_polygon,
    {
        let ghost hv = holes@.map_values(|h: Vec<C>| h@);
        let ghost el = exterior.len() as int;
        let mut coords: Vec<C> = Vec::new();
        append_prefix(&mut coords, exterior.as_slice(), exterior.len());
        proof {
            assert(coords@ =~= exterior@);
            assert(coords@ =~= exterior@ + flatten(hv, 0));
        }
        let mut rings: Vec<RingMeta> = Vec::new();
        rings.push(RingMeta { start: 0, end: coords.len(), is_hole: false });
        let mut j: usize = 0;
        while j < holes.len()
            invariant
                hv == holes@.map_values(|h: Vec<C>| h@),
                el == exterior.len(),
                el + flatten(hv, holes.len() as int).len() <= usize::MAX,
                0 <= j <= holes.len(),
                coords@ == exterior@ + flatten(hv, j as int),
                rings.len() == j + 1,
                rings@[0] == (RingMeta { start: 0, end: el as usize, is_hole: false }),
                forall|i: int|
                    0 <= i < j ==> #[trigger] rings@[i + 1] == (RingMeta {
                        start: (el + flatten(hv, i).len()) as usize,
                        end: (el + flatten(hv, i + 1).len()) as usize,
                        is_hole: true,
                    }),
            decreases holes.len() - j,
        {
            let hole = &holes[j];
            let start = coords.len();
            proof {
                lemma_flatten_prefix_len(hv, j as int + 1, holes.len() as int);
                assert(hv[j as int] == hole@);
                assert(flatten(hv, j + 1) == flatten(hv, j as int) + hv[j as int]);
            }
            append_prefix(&mut coords, hole.as_slice(), hole.len());
            let ghost rings_before = rings@;
            rings.push(RingMeta { start, end: coords.len(), is_hole: true });
            proof {
                assert(coords@ =~= exterior@ + flatten(hv, j + 1));
                assert forall|i: int| 0 <= i < j + 1 implies #[trigger] rings@[i + 1] == (RingMeta {
                    start: (el + flatten(hv, i).len()) as usize,
                    end: (el + flatten(hv, i + 1).len()) as usize,
                    is_hole: true,
                }) by {
                    if i < j {
                        assert(rings@[i + 1] == rings_before[i + 1]);
                    }
                }
            }
            j = j + 1;
        }
        proof {
            lemma_layout(exterior@, hv, coords@, rings@, holes.len() as int);
            assert forall|i: int| 0 <= i < holes.len() implies hv[i] == holes@[i]@ by {}
        }
        HostPolygon { coords, rings, polygon, original_polygon }
    }

    /// Coordinates of ring `ring_id`.
    pub fn ring_coords(&self, ring_id: usize) -> (r: &[C])
        requires
            self.wf(),
            ring_id < self.rings.len(),
        ensures
            r@ == self.ring_view(ring_id as int),
    {
        proof {
            self.lemma_ring_in_bounds(ring_id as int);
        }
        let meta = self.rings[ring_id];
        &self.coords.as_slice()[meta.start..meta.end]
    }

    /// Coordinates of the exterior ring.
    pub fn outer_ring(&self) -> (r: &[C])
        requires
            self.wf(),
        ensures
            r@ == self.ring_view(0),
    {
        self.ring_coords(0)
    }

    /// Number of rings (exterior plus holes).
    pub fn ring_count(&self) -> (n: usize)
        ensures
            n == self.rings.len(),
    {
        self.rings.len()
    }

    /// Every ring's vertices without its closing point, ring after ring.
    pub fn unique_vertices(&self) -> (out: Vec<C>)
        requires
            self.wf(),
        ensures
            out@ == open_vertices(self.coords@, self.rings@, self.rings.len() as int),
    {
        let mut out: Vec<C> = Vec::new();
        let mut ring_id: usize = 0;
        while ring_id < self.rings.len()
            invariant
                self.wf(),
                0 <= ring_id <= self.rings.len(),
                out@ == open_vertices(self.coords@, self.rings@, ring_id as int),
            decreases self.rings.len() - ring_id,
        {
            let ring = self.ring_coords(ring_id);
            proof {
                self.lemma_ring_in_bounds(ring_id as int);
            }
            if ring.len() >= 2 {
                let last = ring.len() - 1;
                append_prefix(&mut out, ring, last);
                proof {
                    let m = self.rings@[ring_id as int];
                    assert(ring@.subrange(0, last as int) =~= self.coords@.subrange(
                        m.start as int,
                        m.end - 1,
                    ));
                }
            }
            ring_id = ring_id + 1;
        }
        out
    }

    /// Every boundary edge, ring after ring, in ring order.
    pub fn ring_edges(&self) -> (out: Vec<RingEdge<C>>)
        requires
            self.wf(),
        ensures
            out@ == all_edges(self.coords@, self.rings@, self.rings.len() as int),
            forall|j: int|
                0 <= j < out.len() ==> {
                    let e = #[trigger] out@[j];
                    let m = self.rings@[e.ring_id as int];
                    &&& e.ring_id < self.rings.len()
                    &&& e.edge_id + 1 < m.end - m.start
                    &&& e.is_hole == m.is_hole
                    &&& e.a == self.coords@[m.start + e.edge_id]
                    &&& e.b == self.coords@[m.start + e.edge_id + 1]
                },
            forall|j1: int, j2: int|
                0 <= j1 < j2 < out.len() ==> {
                    let e1 = #[trigger] out@[j1];
                    let e2 = #[trigger] out@[j2];
                    e1.ring_id < e2.ring_id || (e1.ring_id == e2.ring_id && e1.edge_id
                        < e2.edge_id)
                },
    {
        proof {
            assert forall|i: int| 0 <= i < self.rings.len() implies (#[trigger] self.rings@[i]).start
                <= self.rings@[i].end && self.rings@[i].end <= self.coords@.len() by {
                self.lemma_ring_in_bounds(i);
            }
            lemma_edges_join_ring_points(self.coords@, self.rings@, self.rings.len() as int);
        }
        let mut out: Vec<RingEdge<C>> = Vec::new();
        let mut rid: usize = 0;
        while rid < self.rings.len()
            invariant
                self.wf(),
                0 <= rid <= self.rings.len(),
                out@ == all_edges(self.coords@, self.rings@, rid as int),
            decreases self.rings.len() - rid,
        {
            let ring = self.ring_coords(rid);
            let is_hole = self.rings[rid].is_hole;
            proof {
                self.lemma_ring_in_bounds(rid as int);
            }
            let ghost m = self.rings@[rid as int];
            let ghost before = out@;
            if ring.len() >= 2 {
                let n_edges = ring.len() - 1;
                let mut eid: usize = 0;
                while eid < n_edges
                    invariant
                        0 <= eid <= n_edges,
                        n_edges == ring@.len() - 1,
                        ring@ == self.coords@.subrange(m.start as int, m.end as int),
                        m.start <= m.end <= self.coords@.len(),
                        is_hole == m.is_hole,
                        out@ == before + ring_edges_of(self.coords@, m, rid as int).subrange(
                            0,
                            eid as int,
                        ),
                    decreases n_edges - eid,
                {
                    out.push(
                        RingEdge {
                            ring_id: rid,
                            edge_id: eid,
                            is_hole,
                            a: ring[eid],
                            b: ring[eid + 1],
                        },
                    );
                    proof {
                        assert(out@ =~= before + ring_edges_of(self.coords@, m, rid as int).subrange(
                            0,
                            eid + 1,
                        ));
                    }
                    eid = eid + 1;
                }
                proof {
                    assert(ring_edges_of(self.coords@, m, rid as int).subrange(0, n_edges as int)
                        =~= ring_edges_of(self.coords@, m, rid as int));
                }
            } else {
                proof {
                    assert(ring_edges_of(self.coords@, m, rid as int) =~= Seq::<RingEdge<C>>::empty());
                    assert(out@ =~= all_edges(self.coords@, self.rings@, rid + 1));
                }
            }
            rid = rid + 1;
        }
        out
    }

    /// Whether any ring is a hole.
    pub fn has_holes(&self) -> (b: bool)
        ensures
            b == exists|i: int| 0 <= i < self.rings.len() && (#[trigger] self.rings@[i]).is_hole,
    {
        let mut i: usize = 0;
        while i < self.rings.len()
            invariant
                0 <= i <= self.rings.len(),
                forall|k: int| 0 <= k < i ==> !(#[trigger] self.rings@[k]).is_hole,
            decreases self.rings.len() - i,
        {
            if self.rings[i].is_hole {
                return true;
            }
            i = i + 1;
        }
        false
    }

    proof fn lemma_ring_in_bounds(&self, i: int)
        requires
            self.wf(),
            0 <= i < self.rings.len(),
        ensures
            self.rings@[i].start <= self.rings@[i].end <= self.coords.len(),
        decreases self.rings.len() - i,
    {
        if i + 1 < self.rings.len() {
            self.lemma_ring_in_bounds(i + 1);
        }
    }
}

/// The back-to-back layout of an exterior ring and `n` holes tiles the
/// buffer, and each ring's slot holds exactly that ring.
proof fn lemma_layout<C>(
    ext: Seq<C>,
    hv: Seq<Seq<C>>,
    coords: Seq<C>,
    rings: Seq<RingMeta>,
    n: int,
)
    requires
        0 <= n <= hv.len(),
        ext.len() + flatten(hv, n).len() <= usize::MAX,
        coords == ext + flatten(hv, n),
        rings.len() == n + 1,
        rings[0] == (RingMeta { start: 0, end: ext.len() as usize, is_hole: false }),
        forall|i: int|
            0 <= i < n ==> #[trigger] rings[i + 1] == (RingMeta {
                start: (ext.len() + flatten(hv, i).len()) as usize,
                end: (ext.len() + flatten(hv, i + 1).len()) as usize,
                is_hole: true,
            }),
    ensures
        rings[0].start == 0,
        !rings[0].is_hole,
        forall|i: int| 1 <= i < rings.len() ==> (#[trigger] rings[i]).is_hole,
        forall|i: int| 0 <= i < rings.len() ==> (#[trigger] rings[i]).start <= rings[i].end,
        forall|i: int| 0 <= i < rings.len() - 1 ==> (#[trigger] rings[i]).end == rings[i + 1].start,
        rings[rings.len() - 1].end == coords.len(),
        coords.subrange(rings[0].start as int, rings[0].end as int) == ext,
        forall|i: int|
            0 <= i < n ==> #[trigger] coords.subrange(
                rings[i + 1].start as int,
                rings[i + 1].end as int,
            ) == hv[i],
{
    let el = ext.len() as int;
    assert forall|i: int| 0 <= i < n implies (ext.len() + (#[trigger] flatten(hv, i)).len()
        <= ext.len() + flatten(hv, i + 1).len() <= usize::MAX) by {
        lemma_flatten_prefix_len(hv, i, i + 1);
        lemma_flatten_prefix_len(hv, i + 1, n);
    }
    assert forall|i: int| 1 <= i < rings.len() implies (#[trigger] rings[i]).is_hole by {
        assert(rings[(i - 1) + 1].is_hole);
    }
    assert forall|i: int| 0 <= i < rings.len() implies (#[trigger] rings[i]).start
        <= rings[i].end by {
        if i > 0 {
            assert(rings[(i - 1) + 1] == rings[i]);
        }
    }
    assert forall|i: int| 0 <= i < rings.len() - 1 implies (#[trigger] rings[i]).end
        == rings[i + 1].start by {
        if i > 0 {
            assert(rings[(i - 1) + 1] == rings[i]);
        }
    }
    if n > 0 {
        assert(rings[(n - 1) + 1].end == el + flatten(hv, n).len());
    }
    assert(coords.subrange(rings[0].start as int, rings[0].end as int) =~= ext);
    assert forall|i: int| 0 <= i < n implies #[trigger] coords.subrange(
        rings[i + 1].start as int,
        rings[i + 1].end as int,
    ) == hv[i] by {
        lemma_flatten_slot(ext, hv, i, n);
    }
}

/// Appends the first `n` elements of `src` to `out`.
fn append_prefix<C: Copy>(out: &mut Vec<C>, src: &[C], n: usize)
    requires
        n <= src@.len(),
    ensures
        final(out)@ == old(out)@ + src@.subrange(0, n as int),
{
    let ghost before = out@;
    let mut t: usize = 0;
    while t < n
        invariant
            0 <= t <= n <= src@.len(),
            out@ == before + src@.subrange(0, t as int),
        decreases n - t,
    {
        out.push(src[t]);
        proof {
            assert(out@ =~= before + src@.subrange(0, t + 1));
        }
        t = t + 1;
    }
}

proof fn lemma_flatten_prefix<C>(rings: Seq<Seq<C>>, k: int, n: int)
    requires
        0 <= k <= n <= rings.len(),
    ensures
        flatten(rings, n).subrange(0, flatten(rings, k).len() as int) == flatten(rings, k),
    decreases n - k,
{
    if k < n {
        lemma_flatten_prefix(rings, k, n - 1);
        lemma_flatten_prefix_len(rings, k, n - 1);
        assert(flatten(rings, n).subrange(0, flatten(rings, k).len() as int) =~= flatten(
            rings,
            n - 1,
        ).subrange(0, flatten(rings, k).len() as int));
    } else {
        assert(flatten(rings, n).subrange(0, flatten(rings, k).len() as int) =~= flatten(rings, k));
    }
}

/// Ring `i` of the flattened buffer sits right after rings `0..i`.
proof fn lemma_flatten_slot<C>(ext: Seq<C>, rings: Seq<Seq<C>>, i: int, n: int)
    requires
        0 <= i < n <= rings.len(),
    ensures
        (ext + flatten(rings, n)).subrange(
            (ext.len() + flatten(rings, i).len()) as int,
            (ext.len() + flatten(rings, i + 1).len()) as int,
        ) == rings[i],
{
    lemma_flatten_prefix(rings, i + 1, n);
    lemma_flatten_prefix_len(rings, i + 1, n);
    let f = flatten(rings, n);
    let fi = flatten(rings, i);
    let a = fi.len() as int;
    let b = (fi.len() + rings[i].len()) as int;
    let el = ext.len() as int;
    assert(flatten(rings, i + 1) == fi + rings[i]);
    assert((ext + f).subrange(el + a, el + b) =~= f.subrange(0, b).subrange(a, b));
    assert((fi + rings[i]).subrange(a, b) =~= rings[i]);
}

proof fn lemma_flatten_prefix_len<C>(rings: Seq<Seq<C>>, k: int, n: int)
    requires
        0 <= k <= n <= rings.len(),
    ensures
        flatten(rings, k).len() <= flatten(rings, n).len(),
    decreases n - k,
{
    if k < n {
        lemma_flatten_prefix_len(rings, k, n - 1);
    }
}

} // verus!
