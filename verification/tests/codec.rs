use terp::material::{Color, PointsSettings};
use terp::points::{Point, Points};
use terp::project::{DecodeError, Drawing, Project};

fn pt(x: f32, y: f32) -> Point {
    Point { x: x.to_bits(), y: y.to_bits(), z: 0.0f32.to_bits() }
}

fn settings(radius: f32) -> PointsSettings {
    PointsSettings { color: Color::default(), radius: radius.to_bits() }
}

#[test]
fn test_save_project() {
    let project = Project {
        drawings: vec![Drawing {
            source_settings: settings(25.0),
            target_settings: settings(0.0),
            source_points: Points(vec![pt(0.0, 0.0)]),
            target_points: Points(vec![pt(1.0, 1.0)]),
            layer: 1.0f32.to_bits(),
        }],
    };

    let bytes = project.serialize();
    let decoded = Project::deserialize(&bytes).unwrap();

    assert_eq!(decoded.drawings.len(), 1);
    let drawing = &decoded.drawings[0];
    assert_eq!(f32::from_bits(drawing.source_settings.radius), 25.0);
    assert_eq!(drawing.source_points.0, vec![pt(0.0, 0.0)]);
    assert_eq!(drawing.target_points.0, vec![pt(1.0, 1.0)]);
    assert_eq!(f32::from_bits(drawing.layer), 1.0);
}

#[test]
fn round_trip_multiple_drawings() {
    let project = Project {
        drawings: vec![
            Drawing {
                source_settings: settings(3.0),
                target_settings: settings(4.0),
                source_points: Points(vec![pt(0.5, -1.5), pt(2.25, 8.0)]),
                target_points: Points(vec![pt(-3.0, 0.0), pt(7.5, 7.5)]),
                layer: 2.0f32.to_bits(),
            },
            Drawing {
                source_settings: settings(5.5),
                target_settings: settings(6.5),
                source_points: Points(vec![]),
                target_points: Points(vec![]),
                layer: 3.0f32.to_bits(),
            },
        ],
    };

    let bytes = project.serialize();
    let decoded = Project::deserialize(&bytes).unwrap();

    assert_eq!(decoded.drawings.len(), 2);
    for (orig, back) in project.drawings.iter().zip(decoded.drawings.iter()) {
        assert_eq!(orig.source_settings, back.source_settings);
        assert_eq!(orig.target_settings, back.target_settings);
        assert_eq!(orig.source_points.0, back.source_points.0);
        assert_eq!(orig.target_points.0, back.target_points.0);
        assert_eq!(orig.layer, back.layer);
    }
}

#[test]
fn round_trip_empty_project() {
    let project = Project { drawings: vec![] };
    let bytes = project.serialize();
    let decoded = Project::deserialize(&bytes).unwrap();
    assert_eq!(decoded.drawings.len(), 0);
}

#[test]
fn serialization_is_deterministic() {
    let make = || Project {
        drawings: vec![Drawing {
            source_settings: settings(1.0),
            target_settings: settings(2.0),
            source_points: Points(vec![pt(1.0, 2.0)]),
            target_points: Points(vec![pt(3.0, 4.0)]),
            layer: 0.0f32.to_bits(),
        }],
    };
    assert_eq!(make().serialize(), make().serialize());
}

#[test]
fn round_trip_is_bit_exact_on_every_word() {
    // Coordinates are opaque 32-bit words, so even patterns that floating
    // point would not preserve (quiet-NaN payloads, the all-ones word) come
    // back untouched.
    let odd = Point { x: u32::MAX, y: 0x7FC0_1234, z: 1 };
    let project = Project {
        drawings: vec![Drawing {
            source_settings: settings(0.0),
            target_settings: settings(0.0),
            source_points: Points(vec![odd]),
            target_points: Points(vec![odd]),
            layer: u32::MAX,
        }],
    };
    let decoded = Project::deserialize(&project.serialize()).unwrap();
    assert_eq!(decoded.drawings[0].source_points.0, vec![odd]);
    assert_eq!(decoded.drawings[0].layer, u32::MAX);
}

#[test]
fn decode_rejects_truncated_input() {
    assert!(matches!(Project::deserialize(&vec![]), Err(DecodeError::Truncated)));
    assert!(matches!(
        Project::deserialize(&vec![0x54, 0x45, 0x52]),
        Err(DecodeError::Truncated)
    ));

    let project = Project { drawings: vec![] };
    let mut bytes = project.serialize();
    bytes.pop();
    assert!(matches!(Project::deserialize(&bytes), Err(DecodeError::Truncated)));
}

#[test]
fn decode_rejects_bad_magic() {
    let project = Project { drawings: vec![] };
    let mut bytes = project.serialize();
    bytes[0] = b'X';
    assert!(matches!(Project::deserialize(&bytes), Err(DecodeError::BadMagic)));
}

#[test]
fn decode_rejects_unsupported_version() {
    let project = Project { drawings: vec![] };
    let mut bytes = project.serialize();
    bytes[4] = 99;
    assert!(matches!(
        Project::deserialize(&bytes),
        Err(DecodeError::UnsupportedVersion)
    ));
}

#[test]
fn decode_rejects_trailing_junk() {
    let project = Project { drawings: vec![] };
    let mut bytes = project.serialize();
    bytes.push(0);
    assert!(matches!(Project::deserialize(&bytes), Err(DecodeError::TrailingData)));
}

#[test]
fn decode_never_panics_on_garbage() {
    let garbage: Vec<u8> = (0u16..700).map(|i| (i % 251) as u8).collect();
    assert!(Project::deserialize(&garbage).is_err());
    // A huge announced drawing count with no content behind it.
    let mut bytes = vec![0x54, 0x45, 0x52, 0x50, 1, 0, 0, 0];
    bytes.extend_from_slice(&u64::MAX.to_le_bytes());
    assert!(matches!(Project::deserialize(&bytes), Err(DecodeError::Truncated)));
}
