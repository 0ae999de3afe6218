//! Point sequences, tripled vertex buffers, and nearest-neighbour padding.
//!
//! A logical point is drawn as three duplicate vertices (a degenerate-triangle
//! encoding used by the point-sprite renderer), so every raw vertex buffer has
//! a length that is a multiple of three. Padding stretches a shorter buffer to
//! a longer target length by repeating logical points; it never invents new
//! positions.

use vstd::prelude::*;
use vstd::arithmetic::div_mod::lemma_div_multiples_vanish;
use vstd::arithmetic::div_mod::lemma_fundamental_div_mod;

verus! {

/// One vertex position. Each coordinate is an opaque 32-bit word (the bit
/// pattern of the host renderer's scalar); the engine copies coordinates but
/// never computes with them. `z` is a free per-point layer/order tag.
#[derive(Clone, Copy, PartialEq, Eq, Structural, Debug)]
pub struct Point {
    pub x: u32,
    pub y: u32,
    pub z: u32,
}

/// An ordered freehand stroke: the sequence of logical points in stroke time
/// order. Insertion order is semantically significant.
pub struct Points(pub Vec<Point>);

impl View for Points {
    type V = Seq<Point>;

    open spec fn view(&self) -> Seq<Point> {
        self.0@
    }
}

/// Vertex `j` of logical point `i` sits at buffer slot `3 * i + j`.
proof fn lemma_triple_slot(i: int, j: int)
    requires
        0 <= j < 3,
        0 <= i,
    ensures
        (3 * i + j) / 3 == i,
        (3 * i + j) % 3 == j,
{
    assert((3 * i + j) / 3 == i && (3 * i + j) % 3 == j) by (nonlinear_arith)
        requires
            0 <= j < 3,
            0 <= i,
    ;
}

/// The tripled vertex buffer of a stroke: each logical point appears as three
/// consecutive duplicate vertices.
pub open spec fn tripled(pts: Seq<Point>) -> Seq<Point> {
    Seq::new(3 * pts.len(), |k: int| pts[k / 3])
}

/// The logical points recovered from a vertex buffer: every third vertex,
/// starting at the first.
pub open spec fn untripled(verts: Seq<Point>) -> Seq<Point> {
    Seq::new(((verts.len() + 2) / 3) as nat, |i: int| verts[3 * i])
}

/// Recovering logical points from a tripled buffer gives back the stroke:
/// tripling loses nothing.
pub proof fn lemma_untripled_tripled(pts: Seq<Point>)
    ensures
        untripled(tripled(pts)) == pts,
{
    let n = pts.len() as int;
    assert((3 * n + 2) / 3 == n) by {
        lemma_triple_slot(n, 2);
    }
    assert forall|i: int| 0 <= i < n implies untripled(tripled(pts))[i] == pts[i] by {
        lemma_triple_slot(i, 0);
        assert(tripled(pts)[3 * i] == pts[i]);
    }
    assert(untripled(tripled(pts)) =~= pts);
}

/// The source index that padding reads for output logical point `i`, when a
/// buffer of `n` logical points is stretched to `m` logical points: the floor
/// of `i` divided by the real ratio `m / n`, clamped to the last valid index.
pub open spec fn pad_source_index(i: int, n: int, m: int) -> int {
    if i * n / m <= n - 1 {
        i * n / m
    } else {
        n - 1
    }
}

/// The padded buffer: every output slot is an exact duplicate of some input
/// slot, chosen by nearest-neighbour upsampling over logical points (groups of
/// three vertices). No interpolation happens here.
pub open spec fn padded<T>(p: Seq<T>, target_len: int) -> Seq<T> {
    Seq::new(
        target_len as nat,
        |k: int| p[3 * pad_source_index(k / 3, p.len() as int / 3, target_len / 3) + k % 3],
    )
}

/// Stretches `positions` (a tripled vertex buffer) to exactly `target_len`
/// entries by repeating logical points. Both lengths must be positive
/// multiples of three and the target strictly longer; violating that is a
/// programming error in the caller, so it is excluded here rather than
/// handled.
pub fn pad<T: Copy>(positions: &Vec<T>, target_len: usize) -> (r: Vec<T>)
    requires
        0 < positions@.len() < target_len,
        positions@.len() % 3 == 0,
        target_len % 3 == 0,
    ensures
        r@ == padded(positions@, target_len as int),
        r@.len() == target_len,
{
    let plen: usize = positions.len();
    let n: usize = plen / 3;
    let m: usize = target_len / 3;
    let ghost gp = positions@;
    let ghost gt = target_len as int;
    let mut r: Vec<T> = Vec::new();
    let mut i: usize = 0;
    while i < m
        invariant
            0 < n < m,
            positions@ == gp,
            gp.len() == 3 * n,
            3 * n <= usize::MAX,
            gt == 3 * m,
            i <= m,
            r@.len() == 3 * i,
            forall|k: int| 0 <= k < 3 * i ==> r@[k] == padded(gp, gt)[k],
        decreases m - i,
    {
        proof {
            assert((i as int) * (n as int) < 0x1_0000_0000_0000_0000 * 0x1_0000_0000_0000_0000)
                by (nonlinear_arith)
                requires
                    0 <= i < 0x1_0000_0000_0000_0000,
                    0 <= n < 0x1_0000_0000_0000_0000,
            ;
        }
        let wide: u128 = (i as u128) * (n as u128) / (m as u128);
        let src: usize = if wide <= (n - 1) as u128 {
            wide as usize
        } else {
            n - 1
        };
        proof {
            assert(wide == (i as int) * (n as int) / (m as int));
            assert(src == pad_source_index(i as int, n as int, m as int));
            assert(src < n) by {
                if (i as int) * (n as int) / (m as int) <= n - 1 {
                    assert((i as int) * (n as int) / (m as int) < n);
                }
            }
        }
        r.push(positions[3 * src]);
        r.push(positions[3 * src + 1]);
        r.push(positions[3 * src + 2]);
        proof {
            let ki = i as int;
            lemma_padded_at(gp, gt, ki, 0);
            lemma_padded_at(gp, gt, ki, 1);
            lemma_padded_at(gp, gt, ki, 2);
            assert forall|k: int| 0 <= k < 3 * (ki + 1) implies r@[k] == padded(gp, gt)[k] by {
                if k < 3 * ki {
                } else {
                    assert(k == 3 * ki || k == 3 * ki + 1 || k == 3 * ki + 2);
                }
            }
        }
        i = i + 1;
    }
    proof {
        assert(r@ =~= padded(gp, gt));
    }
    r
}

/// The entry of the padded buffer at vertex `3 * i + j` (vertex `j` of output
/// logical point `i`) is vertex `j` of the chosen source logical point.
proof fn lemma_padded_at<T>(p: Seq<T>, t: int, i: int, j: int)
    requires
        0 <= j < 3,
        0 <= i,
        3 * i + j < t,
        p.len() % 3 == 0,
        t % 3 == 0,
    ensures
        padded(p, t)[3 * i + j] == p[3 * pad_source_index(i, p.len() as int / 3, t / 3) + j],
{
    lemma_triple_slot(i, j);
}

/// Padding a buffer to its own length changes nothing: the mathematical
/// padding map is the identity whenever the target length equals the input
/// length (and both are grouped in triples).
pub proof fn lemma_pad_identity<T>(p: Seq<T>)
    requires
        p.len() % 3 == 0,
    ensures
        padded(p, p.len() as int) == p,
{
    let n = p.len() as int / 3;
    assert forall|k: int| 0 <= k < p.len() implies padded(p, p.len() as int)[k] == p[k] by {
        let ki = k / 3;
        lemma_fundamental_div_mod(k, 3);
        assert(0 <= ki < n);
        assert(ki * n / n == ki) by {
            lemma_div_multiples_vanish(ki, n);
            assert(ki * n == n * ki) by (nonlinear_arith);
        }
        assert(pad_source_index(ki, n, n) == ki);
        assert(3 * ki + k % 3 == k);
    }
    assert(padded(p, p.len() as int) =~= p);
}

/// Padding is deterministic: the padded buffer is a pure function of the
/// input buffer and the target length, with no hidden state, so identical
/// inputs always yield identical outputs.
pub proof fn lemma_pad_deterministic<T>(p1: Seq<T>, p2: Seq<T>, t1: int, t2: int)
    requires
        p1 == p2,
        t1 == t2,
    ensures
        padded(p1, t1) == padded(p2, t2),
{
}

/// Copies a vertex buffer element by element.
fn copy_vertices(v: &Vec<Point>) -> (r: Vec<Point>)
    ensures
        r@ == v@,
{
    let mut out: Vec<Point> = Vec::new();
    let mut i: usize = 0;
    while i < v.len()
        invariant
            i <= v.len(),
            out@ =~= v@.subrange(0, i as int),
        decreases v.len() - i,
    {
        out.push(v[i]);
        i = i + 1;
    }
    proof {
        assert(out@ =~= v@);
    }
    out
}

impl Points {
    /// Renders the stroke as a tripled vertex buffer.
    pub fn to_vertices(&self) -> (r: Vec<Point>)
        ensures
            r@ == tripled(self@),
    {
        let ghost gp = self@;
        let mut r: Vec<Point> = Vec::new();
        let mut i: usize = 0;
        while i < self.0.len()
            invariant
                self@ == gp,
                i <= gp.len(),
                r@.len() == 3 * i,
                forall|k: int| 0 <= k < 3 * i ==> r@[k] == tripled(gp)[k],
            decreases gp.len() - i,
        {
            let p = self.0[i];
            r.push(p);
            r.push(p);
            r.push(p);
            proof {
                let ki = i as int;
                lemma_triple_slot(ki, 0);
                lemma_triple_slot(ki, 1);
                lemma_triple_slot(ki, 2);
                assert forall|k: int| 0 <= k < 3 * (ki + 1) implies r@[k] == tripled(gp)[k] by {
                    if k < 3 * ki {
                    } else {
                        assert(k == 3 * ki || k == 3 * ki + 1 || k == 3 * ki + 2);
                    }
                }
            }
            i = i + 1;
        }
        proof {
            assert(r@ =~= tripled(gp));
        }
        r
    }

    /// Reads a stroke back out of a vertex buffer, taking every third vertex.
    pub fn from_vertices(verts: &Vec<Point>) -> (r: Points)
        ensures
            r@ == untripled(verts@),
    {
        let ghost gv = verts@;
        let m: usize = if verts.len() % 3 == 0 {
            verts.len() / 3
        } else {
            verts.len() / 3 + 1
        };
        proof {
            lemma_fundamental_div_mod(gv.len() as int, 3);
            lemma_fundamental_div_mod(gv.len() as int + 2, 3);
            assert(m == (gv.len() as int + 2) / 3);
        }
        let mut out: Vec<Point> = Vec::new();
        let mut i: usize = 0;
        while i < m
            invariant
                verts@ == gv,
                gv.len() <= usize::MAX,
                m == (gv.len() as int + 2) / 3,
                3 * m <= gv.len() + 2,
                i <= m,
                out@.len() == i,
                forall|k: int| 0 <= k < i ==> out@[k] == untripled(gv)[k],
            decreases m - i,
        {
            out.push(verts[3 * i]);
            i = i + 1;
        }
        proof {
            assert(out@ =~= untripled(gv));
        }
        Points(out)
    }
}

/// Why a mesh could not be built or read back.
#[derive(Clone, Copy, PartialEq, Eq, Structural, Debug)]
pub enum MeshError {
    /// The two point sequences handed to the equal-length constructor do not
    /// have the same number of points.
    LengthMismatch,
    /// The mesh has no paired buffer yet: it is a single-sided, un-merged
    /// stroke.
    NotInterpolated,
}

/// The dual-attribute geometry of one drawing entity: the entity's own
/// rendered vertex buffer, and — once the stroke has been merged with its
/// counterpart — the equally long buffer of the paired shape to blend toward.
pub struct PointsMesh {
    /// Tripled vertex buffer of this entity's own shape.
    pub positions: Vec<Point>,
    /// Tripled vertex buffer of the counterpart shape, present only after a
    /// merge; always the same length as `positions` then.
    pub target_positions: Option<Vec<Point>>,
}

/// The reconciled own buffer after merging own buffer `s` with counterpart
/// buffer `t`: the shorter of the two is padded up, the longer passes through.
pub open spec fn merged_current(s: Seq<Point>, t: Seq<Point>) -> Seq<Point> {
    if s.len() < t.len() {
        padded(s, t.len() as int)
    } else {
        s
    }
}

/// The reconciled counterpart buffer after merging own buffer `s` with
/// counterpart buffer `t`.
pub open spec fn merged_paired(s: Seq<Point>, t: Seq<Point>) -> Seq<Point> {
    if t.len() < s.len() {
        padded(t, s.len() as int)
    } else {
        t
    }
}

/// The two buffers can be reconciled without inventing geometry: equal
/// lengths pass through unchanged, and differing lengths need both buffers
/// nonempty so that the shorter one can be padded.
pub open spec fn merge_feasible(s: Seq<Point>, t: Seq<Point>) -> bool {
    s.len() == t.len() || (s.len() > 0 && t.len() > 0)
}

/// Merging equalizes the two buffers' lengths at the longer of the two, and
/// whichever buffer was at least as long as the other passes through
/// unchanged.
pub proof fn lemma_merge_equalizes(s: Seq<Point>, t: Seq<Point>)
    ensures
        merged_current(s, t).len() == merged_paired(s, t).len(),
        merged_current(s, t).len() == if s.len() < t.len() { t.len() } else { s.len() },
        s.len() >= t.len() ==> merged_current(s, t) == s,
        t.len() >= s.len() ==> merged_paired(s, t) == t,
{
}

impl PointsMesh {
    /// A mesh with no geometry at all, as spawned when a stroke begins.
    pub fn empty() -> (r: PointsMesh)
        ensures
            r.positions@ =~= Seq::<Point>::empty(),
            r.target_positions is None,
    {
        PointsMesh { positions: Vec::new(), target_positions: None }
    }

    /// A single-sided mesh holding the given stroke's rendered buffer, or an
    /// empty buffer when no stroke is given.
    pub fn build(points: Option<&Points>) -> (r: PointsMesh)
        ensures
            r.positions@ == match points {
                Some(p) => tripled(p@),
                None => Seq::<Point>::empty(),
            },
            r.target_positions is None,
    {
        match points {
            Some(p) => PointsMesh { positions: p.to_vertices(), target_positions: None },
            None => PointsMesh::empty(),
        }
    }

    /// Appends one logical point to the entity's own buffer: three duplicate
    /// vertices. The paired buffer, if any, is untouched.
    pub fn append(&mut self, p: Point)
        ensures
            final(self).positions@ == old(self).positions@.push(p).push(p).push(p),
            final(self).target_positions == old(self).target_positions,
    {
        self.positions.push(p);
        self.positions.push(p);
        self.positions.push(p);
    }

    /// Merges the counterpart's rendered buffer into this mesh: the shorter of
    /// the two buffers is padded up to the longer one's length, the longer
    /// passes through unchanged, and the reconciled counterpart buffer becomes
    /// this mesh's paired buffer. The degenerate case of exactly one empty
    /// buffer cannot be reconciled and must be handled by the caller.
    pub fn interpolate(&mut self, target: &PointsMesh)
        requires
            merge_feasible(old(self).positions@, target.positions@),
            old(self).positions@.len() % 3 == 0,
            target.positions@.len() % 3 == 0,
        ensures
            final(self).positions@ == merged_current(old(self).positions@, target.positions@),
            final(self).target_positions matches Some(tp)
                && tp@ == merged_paired(old(self).positions@, target.positions@),
    {
        let slen = self.positions.len();
        let tlen = target.positions.len();
        if slen > tlen {
            self.target_positions = Some(pad(&target.positions, slen));
        } else if slen < tlen {
            let grown = pad(&self.positions, tlen);
            self.positions = grown;
            self.target_positions = Some(copy_vertices(&target.positions));
        } else {
            self.target_positions = Some(copy_vertices(&target.positions));
        }
    }

    /// Builds a mesh from two strokes already known to have the same number of
    /// points (as when reloading a saved project, whose buffers were
    /// reconciled at save time). A length mismatch is reported as an error
    /// rather than silently re-padded: such data is a corruption signal.
    pub fn build_interpolated(source: &Points, target: &Points) -> (r: Result<
        PointsMesh,
        MeshError,
    >)
        ensures
            source@.len() == target@.len() <==> r is Ok,
            r matches Ok(mesh) ==> {
                &&& mesh.positions@ == tripled(source@)
                &&& mesh.target_positions matches Some(tp) && tp@ == tripled(target@)
            },
            r matches Err(e) ==> e == MeshError::LengthMismatch,
    {
        if source.0.len() != target.0.len() {
            return Err(MeshError::LengthMismatch);
        }
        Ok(
            PointsMesh {
                positions: source.to_vertices(),
                target_positions: Some(target.to_vertices()),
            },
        )
    }

    /// An exact copy of this mesh, buffer for buffer.
    pub fn duplicate(&self) -> (r: PointsMesh)
        ensures
            r.positions@ == self.positions@,
            match self.target_positions {
                Some(tp) => r.target_positions matches Some(rp) && rp@ == tp@,
                None => r.target_positions is None,
            },
    {
        let target_positions = match &self.target_positions {
            Some(tp) => Some(copy_vertices(tp)),
            None => None,
        };
        PointsMesh { positions: copy_vertices(&self.positions), target_positions }
    }

    /// Reads both strokes back out of a merged mesh. Fails on a single-sided
    /// mesh that has no paired buffer.
    pub fn to_points(&self) -> (r: Result<(Points, Points), MeshError>)
        ensures
            self.target_positions is Some <==> r is Ok,
            r matches Ok(pair) ==> {
                &&& pair.0@ == untripled(self.positions@)
                &&& pair.1@ == untripled(self.target_positions->0@)
            },
            r matches Err(e) ==> e == MeshError::NotInterpolated,
    {
        match &self.target_positions {
            Some(tp) => Ok((Points::from_vertices(&self.positions), Points::from_vertices(tp))),
            None => Err(MeshError::NotInterpolated),
        }
    }
}

} // verus!
