use terp::material::{Color, PointsMaterial, PointsSettings};

#[test]
fn test_material_properties() {
    let material = PointsMaterial {
        source_settings: PointsSettings { color: Color::default(), radius: 1.0f32.to_bits() },
        target_settings: PointsSettings { color: Color::default(), radius: 2.0f32.to_bits() },
        t: 0.5f32.to_bits(),
    };

    assert_eq!(f32::from_bits(material.t), 0.5);
    assert_eq!(f32::from_bits(material.source_settings.radius), 1.0);
    assert_eq!(f32::from_bits(material.target_settings.radius), 2.0);
}

#[test]
fn test_points_settings_default() {
    let settings = PointsSettings::default();
    assert_eq!(settings.color, Color::default());
    assert_eq!(f32::from_bits(settings.radius), 0.0);
}

#[test]
fn test_points_settings_clone() {
    let settings = PointsSettings { color: Color::default(), radius: 1.0f32.to_bits() };
    let cloned = settings.clone();

    assert_eq!(settings.color, cloned.color);
    assert_eq!(settings.radius, cloned.radius);
}

#[test]
fn default_color_is_opaque_white() {
    let color = Color::default();
    assert_eq!(f32::from_bits(color.red), 1.0);
    assert_eq!(f32::from_bits(color.green), 1.0);
    assert_eq!(f32::from_bits(color.blue), 1.0);
    assert_eq!(f32::from_bits(color.alpha), 1.0);
}

#[test]
fn material_default_starts_at_own_end() {
    let material = PointsMaterial::default();
    assert_eq!(f32::from_bits(material.t), 0.0);
    assert_eq!(material.source_settings, PointsSettings::default());
    assert_eq!(material.target_settings, PointsSettings::default());
}

#[test]
fn set_t_changes_only_the_blend_factor() {
    let mut material = PointsMaterial::default();
    let before = material;
    material.set_t(0.25f32.to_bits());
    assert_eq!(f32::from_bits(material.t), 0.25);
    assert_eq!(material.source_settings, before.source_settings);
    assert_eq!(material.target_settings, before.target_settings);
}

#[test]
fn merged_materials_share_endpoints_and_complement() {
    let brush_a = PointsSettings { color: Color::default(), radius: 10.0f32.to_bits() };
    let brush_b = PointsSettings { color: Color::default(), radius: 20.0f32.to_bits() };
    let source = PointsMaterial::from_brush(brush_a);
    let target = PointsMaterial::from_brush(brush_b);

    let (leading, trailing) = PointsMaterial::merge(&source, &target);

    assert_eq!(leading.source_settings, brush_a);
    assert_eq!(leading.target_settings, brush_b);
    assert_eq!(trailing.source_settings, brush_a);
    assert_eq!(trailing.target_settings, brush_b);
    assert_eq!(f32::from_bits(leading.t), 0.0);
    assert_eq!(f32::from_bits(trailing.t), 1.0);
    assert_eq!(f32::from_bits(leading.t) + f32::from_bits(trailing.t), 1.0);
}
