use terp::draw::{DrawingSession, Side, StrokeState};
use terp::material::{Color, PointsSettings};
use terp::points::{Point, Points};
use terp::project::{Drawing, Project};

fn pt(x: f32, y: f32) -> Point {
    Point { x: x.to_bits(), y: y.to_bits(), z: 0.0f32.to_bits() }
}

fn brush() -> PointsSettings {
    PointsSettings { color: Color::default(), radius: 10.0f32.to_bits() }
}

fn draw_stroke(session: &mut DrawingSession, side: Side, points: &[Point]) -> usize {
    let id = session.start(side, brush(), 0);
    for p in points {
        session.point(*p);
    }
    session.end();
    id
}

#[test]
fn pairing_goes_by_slot_not_arrival_order() {
    let mut session = DrawingSession::new();

    // Stroke A on Source takes slot 1, stroke B on Target takes slot 1,
    // stroke C on Source takes slot 2; they are finished in that order.
    let a = draw_stroke(&mut session, Side::Source, &[pt(0.0, 0.0)]);
    let b = draw_stroke(&mut session, Side::Target, &[pt(1.0, 1.0)]);
    let c = draw_stroke(&mut session, Side::Source, &[pt(2.0, 2.0)]);

    // Ending B paired it with A (same slot), not with the later C.
    let stroke_a = session.strokes[a].as_ref().unwrap();
    let stroke_b = session.strokes[b].as_ref().unwrap();
    let stroke_c = session.strokes[c].as_ref().unwrap();

    assert_eq!(stroke_a.state, StrokeState::Merged { counterpart: b });
    assert_eq!(stroke_b.state, StrokeState::Merged { counterpart: a });
    assert_eq!(stroke_c.state, StrokeState::Pending);
    assert_eq!(stroke_a.slot, 1);
    assert_eq!(stroke_b.slot, 1);
    assert_eq!(stroke_c.slot, 2);
}

#[test]
fn undo_unmerges_without_deleting_counterpart() {
    let mut session = DrawingSession::new();
    let x = draw_stroke(&mut session, Side::Source, &[pt(0.0, 0.0)]);
    let y = draw_stroke(&mut session, Side::Target, &[pt(1.0, 1.0)]);

    assert_eq!(
        session.strokes[x].as_ref().unwrap().state,
        StrokeState::Merged { counterpart: y }
    );

    // The first undo removes Y (most recently created) and strips X back to
    // a pending, single-sided stroke without deleting it.
    session.undo();
    assert!(session.strokes[y].is_none());
    let stroke_x = session.strokes[x].as_ref().unwrap();
    assert_eq!(stroke_x.state, StrokeState::Pending);
    assert!(stroke_x.mesh.target_positions.is_none());

    // The second undo removes X as well.
    session.undo();
    assert!(session.strokes[x].is_none());

    // A further undo on the empty stack is a no-op.
    session.undo();
    assert_eq!(session.undo_stack.len(), 0);
}

#[test]
fn undo_resets_slot_counter_below_popped_slot() {
    let mut session = DrawingSession::new();
    draw_stroke(&mut session, Side::Source, &[pt(0.0, 0.0)]);
    draw_stroke(&mut session, Side::Source, &[pt(1.0, 1.0)]);
    assert_eq!(session.source_count, 2);
    session.undo();
    assert_eq!(session.source_count, 1);
    let next = session.start(Side::Source, brush(), 0);
    assert_eq!(session.strokes[next].as_ref().unwrap().slot, 2);
    session.end();
}

#[test]
fn merged_blend_factors_are_complementary() {
    let mut session = DrawingSession::new();
    let x = draw_stroke(&mut session, Side::Source, &[pt(0.0, 0.0)]);
    let y = draw_stroke(&mut session, Side::Target, &[pt(1.0, 1.0)]);

    let t_current = f32::from_bits(session.strokes[x].as_ref().unwrap().material.t);
    let t_counterpart = f32::from_bits(session.strokes[y].as_ref().unwrap().material.t);
    assert_eq!(t_current, 0.0);
    assert_eq!(t_counterpart, 1.0);
    assert_eq!(t_current + t_counterpart, 1.0);
}

#[test]
fn one_sided_empty_stroke_is_left_unpaired() {
    let mut session = DrawingSession::new();
    let a = draw_stroke(&mut session, Side::Source, &[pt(0.0, 0.0)]);
    // The target stroke in the same slot never received a point: the pair
    // cannot be reconciled, so both stay pending.
    let b = draw_stroke(&mut session, Side::Target, &[]);
    assert_eq!(session.strokes[a].as_ref().unwrap().state, StrokeState::Pending);
    assert_eq!(session.strokes[b].as_ref().unwrap().state, StrokeState::Pending);
}

#[test]
fn end_to_end_draw_merge_save_reload() {
    let mut session = DrawingSession::new();

    let src = draw_stroke(&mut session, Side::Source, &[pt(0.0, 0.0), pt(1.0, 1.0)]);
    let tgt = draw_stroke(&mut session, Side::Target, &[pt(5.0, 5.0), pt(6.0, 6.0)]);

    // One merged pair with both buffers at 6 vertices (2 logical points,
    // tripled).
    let stroke_src = session.strokes[src].as_ref().unwrap();
    assert_eq!(stroke_src.state, StrokeState::Merged { counterpart: tgt });
    assert_eq!(stroke_src.mesh.positions.len(), 6);
    assert_eq!(stroke_src.mesh.target_positions.as_ref().unwrap().len(), 6);

    // Save to bytes and reload into a fresh session.
    let saved = session.save();
    assert_eq!(saved.drawings.len(), 1);
    let bytes = saved.serialize();
    let reloaded = Project::deserialize(&bytes).unwrap();

    assert_eq!(reloaded.drawings[0].source_points.0, vec![pt(0.0, 0.0), pt(1.0, 1.0)]);
    assert_eq!(reloaded.drawings[0].target_points.0, vec![pt(5.0, 5.0), pt(6.0, 6.0)]);

    let mut fresh = DrawingSession::new();
    fresh.load(&reloaded).unwrap();
    assert_eq!(fresh.strokes.len(), 2);
    assert_eq!(fresh.source_count, 1);
    assert_eq!(fresh.target_count, 1);

    // The reloaded pair is registered as already merged, and saving again
    // reproduces the same project.
    let resaved = fresh.save();
    assert_eq!(resaved.drawings.len(), 1);
    assert_eq!(resaved.drawings[0].source_points.0, vec![pt(0.0, 0.0), pt(1.0, 1.0)]);
    assert_eq!(resaved.drawings[0].target_points.0, vec![pt(5.0, 5.0), pt(6.0, 6.0)]);
    assert_eq!(resaved.serialize(), bytes);
}

#[test]
fn load_fails_whole_on_length_mismatch_and_keeps_session() {
    let mut session = DrawingSession::new();
    draw_stroke(&mut session, Side::Source, &[pt(0.0, 0.0)]);
    let strokes_before = session.strokes.len();

    let corrupt = Project {
        drawings: vec![Drawing {
            source_settings: PointsSettings { color: Color::default(), radius: 0 },
            target_settings: PointsSettings { color: Color::default(), radius: 0 },
            source_points: Points(vec![pt(0.0, 0.0), pt(1.0, 1.0)]),
            target_points: Points(vec![pt(2.0, 2.0)]),
            layer: 0,
        }],
    };

    assert!(session.load(&corrupt).is_err());
    assert_eq!(session.strokes.len(), strokes_before);
    assert_eq!(session.source_count, 1);
}

#[test]
fn load_reconstructs_merged_pairs_and_undo_order() {
    let project = Project {
        drawings: vec![Drawing {
            source_settings: brush(),
            target_settings: brush(),
            source_points: Points(vec![pt(0.0, 0.0)]),
            target_points: Points(vec![pt(1.0, 1.0)]),
            layer: 4.0f32.to_bits(),
        }],
    };

    let mut session = DrawingSession::new();
    session.load(&project).unwrap();

    // Target entity first, then the animatable source entity; the undo stack
    // lists the source first so that undo pops the target half first.
    let target = session.strokes[0].as_ref().unwrap();
    let source = session.strokes[1].as_ref().unwrap();
    assert_eq!(target.side, Side::Target);
    assert_eq!(source.side, Side::Source);
    assert_eq!(target.state, StrokeState::Merged { counterpart: 1 });
    assert_eq!(source.state, StrokeState::Merged { counterpart: 0 });
    assert_eq!(f32::from_bits(target.material.t), 1.0);
    assert_eq!(f32::from_bits(source.material.t), 0.0);
    assert_eq!(session.undo_stack, vec![1, 0]);

    session.undo();
    assert!(session.strokes[0].is_none());
    assert_eq!(session.strokes[1].as_ref().unwrap().state, StrokeState::Pending);
}
