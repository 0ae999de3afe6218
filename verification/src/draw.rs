//! The stroke-pairing session: slot counters, the undo stack, and the
//! pairing protocol that merges a finished stroke with its counterpart on
//! the opposite canvas.
//!
//! All session state lives in one owned [`DrawingSession`] value; the
//! surrounding event loop calls [`DrawingSession::start`],
//! [`DrawingSession::point`] and [`DrawingSession::end`] in stroke order, and
//! [`DrawingSession::undo`] between strokes.

use vstd::prelude::*;
use vstd::pervasive::unreached;
use vstd::pervasive::VecAdditionalExecFns;

use crate::material::PointsMaterial;
use crate::material::PointsSettings;
use crate::material::merged_leading;
use crate::material::merged_trailing;
use crate::points::Point;
use crate::points::PointsMesh;
use crate::points::merge_feasible;
use crate::points::merged_current;
use crate::points::merged_paired;
use crate::points::untripled;
use crate::project::Drawing;
use crate::project::DrawingView;
use crate::project::Project;

verus! {

/// A session whose strokes and undo stack are unchanged, and whose active
/// stroke is cleared, stays well-formed: well-formedness only looks at the
/// strokes and the stack.
proof fn lemma_wf_same_strokes(pre: DrawingSession, post: DrawingSession)
    requires
        pre.wf(),
        post.strokes@ == pre.strokes@,
        post.undo_stack@ == pre.undo_stack@,
        post.active is None,
    ensures
        post.wf(),
{
    assert forall|k: int|
        0 <= k < post.undo_stack@.len() implies post.alive(#[trigger] post.undo_stack@[k] as int) by {
        assert(pre.alive(pre.undo_stack@[k] as int));
    }
    assert forall|id: int| 0 <= id < post.strokes@.len() implies #[trigger] post.stroke_ok(id) by {
        assert(pre.stroke_ok(id));
    }
}

/// Which canvas a stroke was drawn on.
#[derive(Clone, Copy, PartialEq, Eq, Structural, Debug)]
pub enum Side {
    Source,
    Target,
}

impl Side {
    /// The other canvas.
    pub open spec fn spec_opposite(self) -> Side {
        match self {
            Side::Source => Side::Target,
            Side::Target => Side::Source,
        }
    }

    /// The other canvas.
    pub fn opposite(self) -> (r: Side)
        ensures
            r == self.spec_opposite(),
    {
        match self {
            Side::Source => Side::Target,
            Side::Target => Side::Source,
        }
    }
}

/// Merge status of a stroke.
#[derive(Clone, Copy, PartialEq, Eq, Structural, Debug)]
pub enum StrokeState {
    /// Not yet part of a completed pair; eligible for matching.
    Pending,
    /// Paired with the stroke with the given id on the opposite canvas.
    Merged { counterpart: usize },
}

/// One stroke entity: where and in which slot it was drawn, its merge
/// status, its geometry and its blend material.
pub struct Stroke {
    pub side: Side,
    /// The per-side slot number this stroke was given at start time; the join
    /// key for pairing. Always at least one.
    pub slot: usize,
    pub state: StrokeState,
    pub mesh: PointsMesh,
    pub material: PointsMaterial,
    /// Render depth of this entity, an opaque 32-bit scalar word chosen by
    /// the rendering collaborator.
    pub layer: u32,
}

/// One drawing session: every stroke entity ever created and still alive,
/// the undo stack over them, and the two per-side slot counters.
pub struct DrawingSession {
    /// Stroke entities by id; a removed entity leaves `None` behind so ids
    /// stay stable.
    pub strokes: Vec<Option<Stroke>>,
    /// Ids of all surviving strokes in creation order; the undo stack.
    pub undo_stack: Vec<usize>,
    /// Slot counter of the source canvas.
    pub source_count: usize,
    /// Slot counter of the target canvas.
    pub target_count: usize,
    /// The stroke currently being drawn, if any.
    pub active: Option<usize>,
}

impl DrawingSession {
    /// The stroke with this id is still alive.
    pub open spec fn alive(self, id: int) -> bool {
        &&& 0 <= id < self.strokes@.len()
        &&& self.strokes@[id] is Some
    }

    /// The stroke with this id (meaningful only while it is alive).
    pub open spec fn stroke_at(self, id: int) -> Stroke {
        self.strokes@[id]->0
    }

    /// Everything that holds of one stroke id in a well-formed session.
    pub open spec fn stroke_ok(self, id: int) -> bool {
        self.alive(id) ==> {
            let s = self.stroke_at(id);
            &&& s.slot >= 1
            &&& s.mesh.positions@.len() % 3 == 0
            &&& (s.state is Pending ==> s.mesh.target_positions is None)
            &&& (s.state matches StrokeState::Merged { counterpart } ==> {
                &&& self.alive(counterpart as int)
                &&& counterpart != id
                &&& s.mesh.target_positions matches Some(tp) && tp@.len()
                    == s.mesh.positions@.len()
                &&& self.stroke_at(counterpart as int).side == s.side.spec_opposite()
                &&& self.stroke_at(counterpart as int).state matches StrokeState::Merged {
                    counterpart: back,
                } && back == id
            })
        }
    }

    /// The session's well-formedness invariant: the active stroke is alive
    /// and unmerged, the undo stack holds distinct live ids, and every live
    /// stroke has a valid slot, triple-grouped geometry, and mutual merge
    /// back-references.
    pub open spec fn wf(self) -> bool {
        &&& (self.active matches Some(a) ==> self.alive(a as int) && self.stroke_at(
            a as int,
        ).state is Pending)
        &&& forall|k: int|
            0 <= k < self.undo_stack@.len() ==> self.alive(#[trigger] self.undo_stack@[k] as int)
        &&& forall|k1: int, k2: int|
            0 <= k1 < k2 < self.undo_stack@.len() ==> self.undo_stack@[k1] != self.undo_stack@[k2]
        &&& forall|id: int| 0 <= id < self.strokes@.len() ==> #[trigger] self.stroke_ok(id)
    }

    /// A fresh session: no strokes, nothing to undo, both counters at zero.
    pub fn new() -> (r: DrawingSession)
        ensures
            r.wf(),
            r.strokes@.len() == 0,
            r.undo_stack@.len() == 0,
            r.source_count == 0,
            r.target_count == 0,
            r.active is None,
    {
        DrawingSession {
            strokes: Vec::new(),
            undo_stack: Vec::new(),
            source_count: 0,
            target_count: 0,
            active: None,
        }
    }

    /// Begins a stroke on the given canvas: bumps that side's slot counter,
    /// spawns a new stroke entity carrying the current brush appearance and
    /// the given render depth, pushes it onto the undo stack, and makes it
    /// the active stroke.
    pub fn start(&mut self, side: Side, brush: PointsSettings, layer: u32) -> (id: usize)
        requires
            old(self).wf(),
            old(self).active is None,
            old(self).source_count < usize::MAX,
            old(self).target_count < usize::MAX,
            old(self).strokes@.len() < usize::MAX,
        ensures
            final(self).wf(),
            id == old(self).strokes@.len(),
            final(self).strokes@.len() == old(self).strokes@.len() + 1,
            forall|k: int|
                0 <= k < old(self).strokes@.len()
                    ==> final(self).strokes@[k] == old(self).strokes@[k],
            final(self).undo_stack@ == old(self).undo_stack@.push(id),
            final(self).active == Some(id),
            final(self).source_count == if side is Source {
                old(self).source_count + 1
            } else {
                old(self).source_count as int
            },
            final(self).target_count == if side is Target {
                old(self).target_count + 1
            } else {
                old(self).target_count as int
            },
            ({
                let s = final(self).stroke_at(id as int);
                &&& final(self).alive(id as int)
                &&& s.side == side
                &&& s.slot == if side is Source {
                    old(self).source_count + 1
                } else {
                    old(self).target_count + 1
                }
                &&& s.state is Pending
                &&& s.mesh.positions@ == Seq::<Point>::empty()
                &&& s.mesh.target_positions is None
                &&& s.material == (PointsMaterial {
                    source_settings: brush,
                    target_settings: brush,
                    t: crate::material::WORD_ZERO,
                })
                &&& s.layer == layer
            }),
    {
        let slot: usize = match side {
            Side::Source => {
                self.source_count = self.source_count + 1;
                self.source_count
            },
            Side::Target => {
                self.target_count = self.target_count + 1;
                self.target_count
            },
        };
        let id = self.strokes.len();
        let stroke = Stroke {
            side,
            slot,
            state: StrokeState::Pending,
            mesh: PointsMesh::empty(),
            material: PointsMaterial::from_brush(brush),
            layer,
        };
        self.strokes.push(Some(stroke));
        self.undo_stack.push(id);
        self.active = Some(id);
        proof {
            assert forall|k: int|
                0 <= k < self.undo_stack@.len() implies self.alive(
                #[trigger] self.undo_stack@[k] as int,
            ) by {
                if k < old(self).undo_stack@.len() {
                    assert(old(self).alive(old(self).undo_stack@[k] as int));
                }
            }
            assert forall|i: int| 0 <= i < self.strokes@.len() implies #[trigger] self.stroke_ok(
                i,
            ) by {
                if i < old(self).strokes@.len() {
                    assert(old(self).stroke_ok(i));
                }
            }
        }
        id
    }

    /// Stroke `j` is a counterpart candidate for stroke `a`: still alive, a
    /// different entity, not yet merged, on the opposite canvas, and holding
    /// the same slot number. Pairing goes by slot, never by arrival order.
    pub open spec fn eligible_match(self, a: int, j: int) -> bool {
        &&& self.alive(j)
        &&& j != a
        &&& self.stroke_at(j).state is Pending
        &&& self.stroke_at(j).side == self.stroke_at(a).side.spec_opposite()
        &&& self.stroke_at(j).slot == self.stroke_at(a).slot
    }

    /// What merging the source-side stroke `src` with the target-side stroke
    /// `tgt` does to the session: both entities end up sharing the
    /// length-reconciled geometry, mutually referencing each other, with the
    /// leading (source) material at blend factor zero and the trailing
    /// (target) material at blend factor one. No other stroke is touched.
    pub open spec fn merge_outcome(self, post: DrawingSession, src: int, tgt: int) -> bool {
        let ss = self.stroke_at(src);
        let ts = self.stroke_at(tgt);
        let cur = merged_current(ss.mesh.positions@, ts.mesh.positions@);
        let par = merged_paired(ss.mesh.positions@, ts.mesh.positions@);
        &&& post.strokes@.len() == self.strokes@.len()
        &&& forall|k: int|
            0 <= k < self.strokes@.len() && k != src && k != tgt ==> post.strokes@[k]
                == self.strokes@[k]
        &&& post.alive(src)
        &&& post.alive(tgt)
        &&& ({
            let s1 = post.stroke_at(src);
            &&& s1.side == ss.side
            &&& s1.slot == ss.slot
            &&& s1.layer == ss.layer
            &&& s1.state == (StrokeState::Merged { counterpart: tgt as usize })
            &&& s1.mesh.positions@ == cur
            &&& s1.mesh.target_positions matches Some(tp) && tp@ == par
            &&& s1.material == merged_leading(ss.material, ts.material)
        })
        &&& ({
            let s2 = post.stroke_at(tgt);
            &&& s2.side == ts.side
            &&& s2.slot == ts.slot
            &&& s2.layer == ts.layer
            &&& s2.state == (StrokeState::Merged { counterpart: src as usize })
            &&& s2.mesh.positions@ == cur
            &&& s2.mesh.target_positions matches Some(tp) && tp@ == par
            &&& s2.material == merged_trailing(ss.material, ts.material)
        })
    }

    /// Finishes the active stroke and runs the pairing protocol: the first
    /// (lowest-id) counterpart candidate with the same slot number on the
    /// opposite canvas is merged with it. With no candidate the stroke stays
    /// pending, eligible for a future match. A candidate whose geometry
    /// cannot be reconciled (exactly one of the two buffers empty) is also
    /// left unmerged. The undo stack and the slot counters never change here.
    pub fn end(&mut self)
        requires
            old(self).wf(),
            old(self).active is Some,
        ensures
            final(self).wf(),
            final(self).active is None,
            final(self).undo_stack@ == old(self).undo_stack@,
            final(self).source_count == old(self).source_count,
            final(self).target_count == old(self).target_count,
            final(self).strokes@.len() == old(self).strokes@.len(),
            ({
                let a = old(self).active->0 as int;
                &&& ((forall|j: int| !old(self).eligible_match(a, j)) ==> final(self).strokes@
                    == old(self).strokes@)
                &&& (forall|j: int|
                    (#[trigger] old(self).eligible_match(a, j) && (forall|k: int|
                        0 <= k < j ==> !old(self).eligible_match(a, k))) ==> {
                        let src = if old(self).stroke_at(a).side is Source {
                            a
                        } else {
                            j
                        };
                        let tgt = if old(self).stroke_at(a).side is Source {
                            j
                        } else {
                            a
                        };
                        let sbuf = old(self).stroke_at(src).mesh.positions@;
                        let tbuf = old(self).stroke_at(tgt).mesh.positions@;
                        if merge_feasible(sbuf, tbuf) {
                            old(self).merge_outcome(*final(self), src, tgt)
                        } else {
                            final(self).strokes@ == old(self).strokes@
                        }
                    })
            }),
    {
        let a = self.active.unwrap();
        self.active = None;
        proof {
            assert(old(self).stroke_ok(a as int));
        }
        let (a_side, a_slot) = match &self.strokes[a] {
            Some(s) => (s.side, s.slot),
            None => unreached(),
        };
        let want = a_side.opposite();
        let ghost ai = a as int;

        let mut j: usize = 0;
        let mut found: Option<usize> = None;
        while j < self.strokes.len() && found.is_none()
            invariant
                self.strokes@ == old(self).strokes@,
                self.undo_stack@ == old(self).undo_stack@,
                self.source_count == old(self).source_count,
                self.target_count == old(self).target_count,
                self.active is None,
                old(self).alive(ai),
                a_side == old(self).stroke_at(ai).side,
                a_slot == old(self).stroke_at(ai).slot,
                want == a_side.spec_opposite(),
                a == ai,
                j <= self.strokes@.len(),
                found matches Some(f) ==> old(self).eligible_match(ai, f as int) && (forall|k: int|
                    0 <= k < f ==> !old(self).eligible_match(ai, k)) && f < j,
                found is None ==> forall|k: int| 0 <= k < j ==> !old(self).eligible_match(ai, k),
            decreases self.strokes@.len() - j,
        {
            let is_match = match &self.strokes[j] {
                Some(s) => j != a && s.state == StrokeState::Pending && s.side == want && s.slot
                    == a_slot,
                None => false,
            };
            if is_match {
                found = Some(j);
            }
            j = j + 1;
        }

        let f = match found {
            Some(f) => f,
            None => {
                proof {
                    lemma_wf_same_strokes(*old(self), *self);
                }
                return ;
            },
        };

        let (src_id, tgt_id) = match a_side {
            Side::Source => (a, f),
            Side::Target => (f, a),
        };
        proof {
            assert(old(self).stroke_ok(f as int));
            assert(src_id != tgt_id);
        }

        let mut src_taken: Option<Stroke> = None;
        self.strokes.set_and_swap(src_id, &mut src_taken);
        let mut src_stroke = match src_taken {
            Some(s) => s,
            None => unreached(),
        };
        let mut tgt_taken: Option<Stroke> = None;
        self.strokes.set_and_swap(tgt_id, &mut tgt_taken);
        let mut tgt_stroke = match tgt_taken {
            Some(s) => s,
            None => unreached(),
        };

        let slen = src_stroke.mesh.positions.len();
        let tlen = tgt_stroke.mesh.positions.len();
        if slen != tlen && (slen == 0 || tlen == 0) {
            // Exactly one of the two buffers is empty: the pair cannot be
            // reconciled without inventing geometry, so both stay pending.
            self.strokes.set(src_id, Some(src_stroke));
            self.strokes.set(tgt_id, Some(tgt_stroke));
            proof {
                assert(self.strokes@ =~= old(self).strokes@);
                lemma_wf_same_strokes(*old(self), *self);
            }
            return ;
        }

        src_stroke.mesh.interpolate(&tgt_stroke.mesh);
        let merged_mesh = src_stroke.mesh.duplicate();
        let (lead_mat, trail_mat) = PointsMaterial::merge(&src_stroke.material, &tgt_stroke.material);

        src_stroke.state = StrokeState::Merged { counterpart: tgt_id };
        src_stroke.material = lead_mat;
        tgt_stroke.state = StrokeState::Merged { counterpart: src_id };
        tgt_stroke.material = trail_mat;
        tgt_stroke.mesh = merged_mesh;

        self.strokes.set(src_id, Some(src_stroke));
        self.strokes.set(tgt_id, Some(tgt_stroke));

        proof {
            assert(old(self).merge_outcome(*self, src_id as int, tgt_id as int));
            assert forall|k: int|
                0 <= k < self.undo_stack@.len() implies self.alive(
                #[trigger] self.undo_stack@[k] as int,
            ) by {
                assert(old(self).alive(old(self).undo_stack@[k] as int));
            }
            assert forall|i: int| 0 <= i < self.strokes@.len() implies #[trigger] self.stroke_ok(
                i,
            ) by {
                assert(old(self).stroke_ok(i));
                if i != src_id && i != tgt_id && self.alive(i) {
                    match self.stroke_at(i).state {
                        StrokeState::Merged { counterpart } => {
                            assert(old(self).stroke_ok(counterpart as int));
                            assert(counterpart != src_id && counterpart != tgt_id);
                        },
                        StrokeState::Pending => {},
                    }
                }
            }
        }
    }

    /// A stroke that drives the animation: the source-side half of a merged
    /// pair.
    pub open spec fn is_animatable(self, id: int) -> bool {
        &&& self.alive(id)
        &&& self.stroke_at(id).side is Source
        &&& self.stroke_at(id).state is Merged
    }

    /// The drawing record persisted for the animatable stroke `id`: its two
    /// endpoint appearances, the two strokes read back from its reconciled
    /// geometry, and its render depth.
    pub open spec fn drawing_of(self, id: int) -> DrawingView {
        let s = self.stroke_at(id);
        DrawingView {
            source_settings: s.material.source_settings,
            target_settings: s.material.target_settings,
            source_points: untripled(s.mesh.positions@),
            target_points: untripled(s.mesh.target_positions->0@),
            layer: s.layer,
        }
    }

    /// The drawing records of the animatable strokes among the first `k`
    /// ids, in id order.
    pub open spec fn drawings_prefix(self, k: int) -> Seq<DrawingView>
        decreases k,
    {
        if k <= 0 {
            Seq::empty()
        } else if self.is_animatable(k - 1) {
            self.drawings_prefix(k - 1).push(self.drawing_of(k - 1))
        } else {
            self.drawings_prefix(k - 1)
        }
    }

    /// All drawing records of the session, in id order.
    pub open spec fn spec_drawings(self) -> Seq<DrawingView> {
        self.drawings_prefix(self.strokes@.len() as int)
    }

    /// Walks every animatable pair still present and collects it into a
    /// persistable project: one drawing record per merged pair, in creation
    /// order of the pair's source-side stroke.
    pub fn save(&self) -> (r: Project)
        requires
            self.wf(),
        ensures
            r@ == self.spec_drawings(),
    {
        let mut drawings: Vec<Drawing> = Vec::new();
        let mut i: usize = 0;
        while i < self.strokes.len()
            invariant
                self.wf(),
                i <= self.strokes@.len(),
                drawings@.map_values(|d: Drawing| d@) == self.drawings_prefix(i as int),
            decreases self.strokes@.len() - i,
        {
            let ghost before = drawings@.map_values(|d: Drawing| d@);
            let animatable = match &self.strokes[i] {
                Some(s) => s.side == Side::Source && match s.state {
                    StrokeState::Merged { .. } => true,
                    StrokeState::Pending => false,
                },
                None => false,
            };
            if animatable {
                proof {
                    assert(self.stroke_ok(i as int));
                }
                let s = match &self.strokes[i] {
                    Some(s) => s,
                    None => unreached(),
                };
                let (source_points, target_points) = match s.mesh.to_points() {
                    Ok(pair) => pair,
                    Err(_) => unreached(),
                };
                let d = Drawing {
                    source_settings: s.material.source_settings,
                    target_settings: s.material.target_settings,
                    source_points,
                    target_points,
                    layer: s.layer,
                };
                drawings.push(d);
                proof {
                    assert(drawings@.map_values(|dd: Drawing| dd@) =~= before.push(
                        self.drawing_of(i as int),
                    ));
                }
            }
            i = i + 1;
        }
        Project { drawings }
    }

    /// Strokes `2 * k` and `2 * k + 1` hold the loaded drawing `d` as an
    /// already-merged pair in slot `k + 1`: the target-side entity first
    /// (blend factor one), then the animatable source-side entity (blend
    /// factor zero), both sharing the drawing's reconciled geometry.
    pub open spec fn loaded_pair(self, d: DrawingView, k: int) -> bool {
        &&& self.alive(2 * k)
        &&& self.alive(2 * k + 1)
        &&& ({
            let t = self.stroke_at(2 * k);
            &&& t.side is Target
            &&& t.slot == k + 1
            &&& t.state matches StrokeState::Merged { counterpart } && counterpart == 2 * k + 1
            &&& t.mesh.positions@ == crate::points::tripled(d.source_points)
            &&& t.mesh.target_positions matches Some(tp) && tp@ == crate::points::tripled(
                d.target_points,
            )
            &&& t.material == (PointsMaterial {
                source_settings: d.source_settings,
                target_settings: d.target_settings,
                t: crate::material::WORD_ONE,
            })
            &&& t.layer == d.layer
        })
        &&& ({
            let s = self.stroke_at(2 * k + 1);
            &&& s.side is Source
            &&& s.slot == k + 1
            &&& s.state matches StrokeState::Merged { counterpart } && counterpart == 2 * k
            &&& s.mesh.positions@ == crate::points::tripled(d.source_points)
            &&& s.mesh.target_positions matches Some(tp) && tp@ == crate::points::tripled(
                d.target_points,
            )
            &&& s.material == (PointsMaterial {
                source_settings: d.source_settings,
                target_settings: d.target_settings,
                t: crate::material::WORD_ZERO,
            })
            &&& s.layer == d.layer
        })
        &&& self.undo_stack@[2 * k] == 2 * k + 1
        &&& self.undo_stack@[2 * k + 1] == 2 * k
    }

    /// Replaces the whole session with the contents of a loaded project:
    /// every persisted drawing is re-registered as an already-merged pair,
    /// both halves pushed onto the undo stack in the order the drawings were
    /// listed, and each side's slot counter counts the loaded pairs. A
    /// drawing whose two point lists differ in length is a corruption
    /// signal: the whole load fails and the session is left untouched.
    pub fn load(&mut self, project: &Project) -> (r: Result<(), crate::points::MeshError>)
        requires
            old(self).wf(),
            old(self).active is None,
            project@.len() < usize::MAX / 2,
        ensures
            final(self).wf(),
            final(self).active is None,
            (forall|k: int|
                0 <= k < project@.len() ==> (#[trigger] project@[k].source_points).len()
                    == project@[k].target_points.len()) <==> r is Ok,
            r matches Err(e) ==> {
                &&& e == crate::points::MeshError::LengthMismatch
                &&& final(self).strokes@ == old(self).strokes@
                &&& final(self).undo_stack@ == old(self).undo_stack@
                &&& final(self).source_count == old(self).source_count
                &&& final(self).target_count == old(self).target_count
            },
            r is Ok ==> {
                &&& final(self).strokes@.len() == 2 * project@.len()
                &&& final(self).undo_stack@.len() == 2 * project@.len()
                &&& final(self).source_count == project@.len()
                &&& final(self).target_count == project@.len()
                &&& forall|k: int|
                    0 <= k < project@.len() ==> final(self).loaded_pair(#[trigger] project@[k], k)
            },
    {
        let n = project.drawings.len();
        let mut i: usize = 0;
        while i < n
            invariant
                *self == *old(self),
                old(self).wf(),
                old(self).active is None,
                n == project@.len(),
                project@ == project.drawings@.map_values(|d: Drawing| d@),
                i <= n,
                forall|k: int|
                    0 <= k < i ==> (#[trigger] project@[k].source_points).len()
                        == project@[k].target_points.len(),
            decreases n - i,
        {
            let d = &project.drawings[i];
            if d.source_points.0.len() != d.target_points.0.len() {
                proof {
                    assert(d@ == project@[i as int]);
                    assert(project@[i as int].source_points.len()
                        != project@[i as int].target_points.len());
                }
                return Err(crate::points::MeshError::LengthMismatch);
            }
            i = i + 1;
        }

        self.strokes = Vec::new();
        self.undo_stack = Vec::new();
        self.source_count = 0;
        self.target_count = 0;

        let mut i: usize = 0;
        while i < n
            invariant
                n == project@.len(),
                n < usize::MAX / 2,
                project@ == project.drawings@.map_values(|d: Drawing| d@),
                forall|k: int|
                    0 <= k < n ==> (#[trigger] project@[k].source_points).len()
                        == project@[k].target_points.len(),
                i <= n,
                self.strokes@.len() == 2 * i,
                self.undo_stack@.len() == 2 * i,
                self.source_count == i,
                self.target_count == i,
                self.active is None,
                forall|k: int| 0 <= k < i ==> self.loaded_pair(#[trigger] project@[k], k),
            decreases n - i,
        {
            let ghost pre_iter = *self;
            let d = &project.drawings[i];
            proof {
                assert(d@ == project@[i as int]);
                assert(project@[i as int].source_points.len() == project@[
                    i as int
                ].target_points.len());
            }
            let mesh = match PointsMesh::build_interpolated(&d.source_points, &d.target_points) {
                Ok(m) => m,
                Err(_) => unreached(),
            };
            let mesh_copy = mesh.duplicate();
            let slot = i + 1;
            let id_t = self.strokes.len();
            let id_s = id_t + 1;
            self.strokes.push(
                Some(
                    Stroke {
                        side: Side::Target,
                        slot,
                        state: StrokeState::Merged { counterpart: id_s },
                        mesh,
                        material: PointsMaterial {
                            source_settings: d.source_settings,
                            target_settings: d.target_settings,
                            t: crate::material::WORD_ONE,
                        },
                        layer: d.layer,
                    },
                ),
            );
            self.strokes.push(
                Some(
                    Stroke {
                        side: Side::Source,
                        slot,
                        state: StrokeState::Merged { counterpart: id_t },
                        mesh: mesh_copy,
                        material: PointsMaterial {
                            source_settings: d.source_settings,
                            target_settings: d.target_settings,
                            t: crate::material::WORD_ZERO,
                        },
                        layer: d.layer,
                    },
                ),
            );
            self.undo_stack.push(id_s);
            self.undo_stack.push(id_t);
            self.source_count = self.source_count + 1;
            self.target_count = self.target_count + 1;
            i = i + 1;
            proof {
                assert forall|k: int| 0 <= k < i implies self.loaded_pair(
                    #[trigger] project@[k],
                    k,
                ) by {
                    if k < i - 1 {
                        assert(pre_iter.loaded_pair(project@[k], k));
                        assert(self.strokes@[2 * k] == pre_iter.strokes@[2 * k]);
                        assert(self.strokes@[2 * k + 1] == pre_iter.strokes@[2 * k + 1]);
                        assert(self.undo_stack@[2 * k] == pre_iter.undo_stack@[2 * k]);
                        assert(self.undo_stack@[2 * k + 1] == pre_iter.undo_stack@[2 * k + 1]);
                    }
                }
            }
        }
        proof {
            let post = *self;
            assert forall|k: int|
                0 <= k < post.undo_stack@.len() implies post.alive(
                #[trigger] post.undo_stack@[k] as int,
            ) by {
                let p = k / 2;
                vstd::arithmetic::div_mod::lemma_fundamental_div_mod(k, 2);
                assert(k == 2 * p || k == 2 * p + 1);
                assert(post.loaded_pair(project@[p], p));
            }
            assert forall|k1: int, k2: int|
                0 <= k1 < k2 < post.undo_stack@.len() implies post.undo_stack@[k1]
                != post.undo_stack@[k2] by {
                let p1 = k1 / 2;
                let p2 = k2 / 2;
                vstd::arithmetic::div_mod::lemma_fundamental_div_mod(k1, 2);
                vstd::arithmetic::div_mod::lemma_fundamental_div_mod(k2, 2);
                assert(k1 == 2 * p1 || k1 == 2 * p1 + 1);
                assert(k2 == 2 * p2 || k2 == 2 * p2 + 1);
                assert(post.loaded_pair(project@[p1], p1));
                assert(post.loaded_pair(project@[p2], p2));
            }
            assert forall|id: int| 0 <= id < post.strokes@.len() implies #[trigger] post.stroke_ok(
                id,
            ) by {
                let p = id / 2;
                vstd::arithmetic::div_mod::lemma_fundamental_div_mod(id, 2);
                assert(id == 2 * p || id == 2 * p + 1);
                assert(post.loaded_pair(project@[p], p));
            }
        }
        Ok(())
    }

    /// Undoes the most recently created surviving stroke. If that stroke was
    /// part of a merged pair, its counterpart is first returned to its
    /// pre-merge, single-sided, non-animatable state — merge reference and
    /// paired buffer stripped — but stays alive. The popped stroke itself is
    /// removed, and its side's slot counter falls back to just below the
    /// popped slot, so the counter stays correct when undo is interleaved
    /// with new strokes. With an empty undo stack this is a no-op.
    pub fn undo(&mut self)
        requires
            old(self).wf(),
            old(self).active is None,
        ensures
            final(self).wf(),
            final(self).active is None,
            old(self).undo_stack@.len() == 0 ==> {
                &&& final(self).strokes@ == old(self).strokes@
                &&& final(self).undo_stack@ == old(self).undo_stack@
                &&& final(self).source_count == old(self).source_count
                &&& final(self).target_count == old(self).target_count
            },
            old(self).undo_stack@.len() > 0 ==> ({
                let id = old(self).undo_stack@.last() as int;
                let popped = old(self).stroke_at(id);
                &&& final(self).undo_stack@ == old(self).undo_stack@.drop_last()
                &&& final(self).strokes@.len() == old(self).strokes@.len()
                &&& final(self).strokes@[id] is None
                &&& final(self).source_count == if popped.side is Source {
                    popped.slot - 1
                } else {
                    old(self).source_count as int
                }
                &&& final(self).target_count == if popped.side is Target {
                    popped.slot - 1
                } else {
                    old(self).target_count as int
                }
                &&& match popped.state {
                    StrokeState::Pending => forall|k: int|
                        0 <= k < old(self).strokes@.len() && k != id ==> final(self).strokes@[k]
                            == old(self).strokes@[k],
                    StrokeState::Merged { counterpart } => {
                        &&& forall|k: int|
                            0 <= k < old(self).strokes@.len() && k != id && k != counterpart
                                ==> final(self).strokes@[k] == old(self).strokes@[k]
                        &&& ({
                            let c0 = old(self).stroke_at(counterpart as int);
                            let c1 = final(self).stroke_at(counterpart as int);
                            &&& final(self).alive(counterpart as int)
                            &&& c1.side == c0.side
                            &&& c1.slot == c0.slot
                            &&& c1.layer == c0.layer
                            &&& c1.material == c0.material
                            &&& c1.state is Pending
                            &&& c1.mesh.positions@ == c0.mesh.positions@
                            &&& c1.mesh.target_positions is None
                        })
                    },
                }
            }),
    {
        let id = match self.undo_stack.pop() {
            Some(id) => id,
            None => {
                proof {
                    lemma_wf_same_strokes(*old(self), *self);
                }
                return ;
            },
        };
        proof {
            assert(old(self).alive(id as int));
            assert(old(self).stroke_ok(id as int));
        }
        let mut taken: Option<Stroke> = None;
        self.strokes.set_and_swap(id, &mut taken);
        let stroke = match taken {
            Some(s) => s,
            None => unreached(),
        };
        match stroke.state {
            StrokeState::Merged { counterpart } => {
                proof {
                    assert(old(self).stroke_ok(counterpart as int));
                }
                let mut ctaken: Option<Stroke> = None;
                self.strokes.set_and_swap(counterpart, &mut ctaken);
                let mut cstroke = match ctaken {
                    Some(s) => s,
                    None => unreached(),
                };
                cstroke.state = StrokeState::Pending;
                cstroke.mesh.target_positions = None;
                self.strokes.set(counterpart, Some(cstroke));
            },
            StrokeState::Pending => {},
        }
        match stroke.side {
            Side::Source => {
                self.source_count = stroke.slot - 1;
            },
            Side::Target => {
                self.target_count = stroke.slot - 1;
            },
        }
        proof {
            let ghost pre = *old(self);
            assert forall|k: int|
                0 <= k < self.undo_stack@.len() implies self.alive(
                #[trigger] self.undo_stack@[k] as int,
            ) by {
                assert(pre.undo_stack@[k] == self.undo_stack@[k]);
                assert(pre.alive(pre.undo_stack@[k] as int));
                assert(pre.undo_stack@[k] != pre.undo_stack@[pre.undo_stack@.len() - 1]);
            }
            assert forall|i: int| 0 <= i < self.strokes@.len() implies #[trigger] self.stroke_ok(
                i,
            ) by {
                assert(pre.stroke_ok(i));
                if self.alive(i) {
                    match self.stroke_at(i).state {
                        StrokeState::Merged { counterpart: c } => {
                            assert(pre.stroke_ok(c as int));
                        },
                        StrokeState::Pending => {},
                    }
                }
            }
        }
    }

    /// Records one point of the active stroke: three duplicate vertices are
    /// appended to its own buffer. Nothing else changes.
    pub fn point(&mut self, p: Point)
        requires
            old(self).wf(),
            old(self).active is Some,
        ensures
            final(self).wf(),
            final(self).strokes@.len() == old(self).strokes@.len(),
            final(self).undo_stack@ == old(self).undo_stack@,
            final(self).source_count == old(self).source_count,
            final(self).target_count == old(self).target_count,
            final(self).active == old(self).active,
            forall|k: int|
                0 <= k < old(self).strokes@.len() && k != old(self).active->0
                    ==> final(self).strokes@[k] == old(self).strokes@[k],
            ({
                let a = old(self).active->0 as int;
                let s0 = old(self).stroke_at(a);
                let s1 = final(self).stroke_at(a);
                &&& final(self).alive(a)
                &&& s1.side == s0.side
                &&& s1.slot == s0.slot
                &&& s1.state == s0.state
                &&& s1.material == s0.material
                &&& s1.layer == s0.layer
                &&& s1.mesh.positions@ == s0.mesh.positions@.push(p).push(p).push(p)
                &&& s1.mesh.target_positions == s0.mesh.target_positions
            }),
    {
        let a = match self.active {
            Some(a) => a,
            None => unreached(),
        };
        let mut taken: Option<Stroke> = None;
        proof {
            assert(old(self).stroke_ok(a as int));
        }
        self.strokes.set_and_swap(a, &mut taken);
        let mut stroke = match taken {
            Some(s) => s,
            None => unreached(),
        };
        stroke.mesh.append(p);
        self.strokes.set(a, Some(stroke));
        proof {
            assert forall|k: int|
                0 <= k < self.undo_stack@.len() implies self.alive(
                #[trigger] self.undo_stack@[k] as int,
            ) by {
                assert(old(self).alive(old(self).undo_stack@[k] as int));
            }
            assert forall|i: int| 0 <= i < self.strokes@.len() implies #[trigger] self.stroke_ok(
                i,
            ) by {
                assert(old(self).stroke_ok(i));
            }
        }
    }
}

} // verus!
