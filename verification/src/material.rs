//! Per-pair visual parameters: colour and radius for the source and target
//! ends of a merged pair, plus the scalar blend factor `t`.
//!
//! The engine owns and updates `t` but never computes with it: the per-vertex
//! positional and colour blend is delegated to the external rendering stage.
//! All scalars are opaque 32-bit words (the bit patterns of the renderer's
//! single-precision floats).

use vstd::prelude::*;

verus! {

/// Bit pattern of the single-precision scalar 0.0.
pub const WORD_ZERO: u32 = 0x0000_0000;

/// Bit pattern of the single-precision scalar 1.0.
pub const WORD_ONE: u32 = 0x3F80_0000;

/// A linear RGBA colour; each channel is an opaque 32-bit scalar word.
#[derive(Clone, Copy, PartialEq, Eq, Structural, Debug)]
pub struct Color {
    pub red: u32,
    pub green: u32,
    pub blue: u32,
    pub alpha: u32,
}

impl Color {
    /// Fully opaque white: every channel is the scalar one.
    pub open spec fn spec_white() -> Color {
        Color { red: WORD_ONE, green: WORD_ONE, blue: WORD_ONE, alpha: WORD_ONE }
    }

    /// Fully opaque white.
    pub fn white() -> (r: Color)
        ensures
            r == Color::spec_white(),
    {
        Color { red: WORD_ONE, green: WORD_ONE, blue: WORD_ONE, alpha: WORD_ONE }
    }
}

impl Default for Color {
    /// The default colour is fully opaque white.
    fn default() -> (r: Color)
        ensures
            r == Color::spec_white(),
    {
        Color::white()
    }
}

/// The appearance of one end of a pair: point colour and point radius.
#[derive(Clone, Copy, PartialEq, Eq, Structural, Debug)]
pub struct PointsSettings {
    pub color: Color,
    /// Point-sprite radius, an opaque 32-bit scalar word.
    pub radius: u32,
}

impl Default for PointsSettings {
    /// The default appearance: white colour, zero radius.
    fn default() -> (r: PointsSettings)
        ensures
            r == (PointsSettings { color: Color::spec_white(), radius: WORD_ZERO }),
    {
        PointsSettings { color: Color::white(), radius: WORD_ZERO }
    }
}

/// The full blend state of one drawing entity: the appearance of its own end,
/// the appearance of the counterpart end, and the blend factor `t` that the
/// external animation driver sweeps between the endpoints.
#[derive(Clone, Copy, PartialEq, Eq, Structural, Debug)]
pub struct PointsMaterial {
    pub source_settings: PointsSettings,
    pub target_settings: PointsSettings,
    /// Blend factor, an opaque 32-bit scalar word; the engine itself only ever
    /// writes the endpoint values zero and one.
    pub t: u32,
}

impl Default for PointsMaterial {
    /// The default material: default appearance at both ends, blend factor
    /// zero (fully showing the entity's own end).
    fn default() -> (r: PointsMaterial)
        ensures
            r == (PointsMaterial {
                source_settings: PointsSettings { color: Color::spec_white(), radius: WORD_ZERO },
                target_settings: PointsSettings { color: Color::spec_white(), radius: WORD_ZERO },
                t: WORD_ZERO,
            }),
    {
        PointsMaterial {
            source_settings: PointsSettings::default(),
            target_settings: PointsSettings::default(),
            t: WORD_ZERO,
        }
    }
}

/// The material of the leading (source-side) entity of a freshly merged pair:
/// its own appearance stays in the source slot, the counterpart's own
/// appearance is copied into the target slot, and its blend starts fully at
/// its own end.
pub open spec fn merged_leading(own: PointsMaterial, counterpart: PointsMaterial) -> PointsMaterial {
    PointsMaterial {
        source_settings: own.source_settings,
        target_settings: counterpart.source_settings,
        t: WORD_ZERO,
    }
}

/// The material of the trailing (target-side) entity of a freshly merged
/// pair: the same two endpoint appearances as the leading entity, with the
/// blend starting fully at the counterpart end.
pub open spec fn merged_trailing(own: PointsMaterial, counterpart: PointsMaterial) -> PointsMaterial {
    PointsMaterial {
        source_settings: own.source_settings,
        target_settings: counterpart.source_settings,
        t: WORD_ONE,
    }
}

impl PointsMaterial {
    /// The material painted on a stroke the moment it begins: the current
    /// brush appearance at both ends and a zero blend factor.
    pub fn from_brush(brush: PointsSettings) -> (r: PointsMaterial)
        ensures
            r == (PointsMaterial { source_settings: brush, target_settings: brush, t: WORD_ZERO }),
    {
        PointsMaterial { source_settings: brush, target_settings: brush, t: WORD_ZERO }
    }

    /// Writes a new blend factor; only the external animation driver calls
    /// this, once per tick, with its eased progress scalar.
    pub fn set_t(&mut self, t: u32)
        ensures
            *final(self) == (PointsMaterial {
                source_settings: old(self).source_settings,
                target_settings: old(self).target_settings,
                t: t,
            }),
    {
        self.t = t;
    }

    /// Combines the materials of a source-side entity and a target-side
    /// entity at merge time. Both resulting materials carry the same two
    /// endpoint appearances; the leading one starts at blend factor zero, the
    /// trailing one at blend factor one.
    pub fn merge(source: &PointsMaterial, target: &PointsMaterial) -> (r: (
        PointsMaterial,
        PointsMaterial,
    ))
        ensures
            r.0 == merged_leading(*source, *target),
            r.1 == merged_trailing(*source, *target),
    {
        let leading = PointsMaterial {
            source_settings: source.source_settings,
            target_settings: target.source_settings,
            t: WORD_ZERO,
        };
        let trailing = PointsMaterial {
            source_settings: leading.source_settings,
            target_settings: leading.target_settings,
            t: WORD_ONE,
        };
        (leading, trailing)
    }
}

/// Immediately after a merge the two sides' blend factors are the exact
/// endpoint scalars zero and one — complementary positions on the blend
/// timeline, so the visible cross-fade always sums to a whole appearance and
/// is never double-counted.
pub proof fn lemma_merged_blend_complementary(own: PointsMaterial, counterpart: PointsMaterial)
    ensures
        merged_leading(own, counterpart).t == WORD_ZERO,
        merged_trailing(own, counterpart).t == WORD_ONE,
        merged_leading(own, counterpart).source_settings == merged_trailing(
            own,
            counterpart,
        ).source_settings,
        merged_leading(own, counterpart).target_settings == merged_trailing(
            own,
            counterpart,
        ).target_settings,
{
}

} // verus!
